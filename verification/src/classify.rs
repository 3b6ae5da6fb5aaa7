//! The line classifier.
//!
//! A line of the stream either encodes a point or is passed through as it
//! came. A line of one to three bare numbers, with a comma or white space
//! between them, is a point of the signal `csv` with that many values. Any
//! other line is held against five grammars, and where several match, the one
//! that stands last among them decodes the line.

use vstd::prelude::*;
use vstd::string::StringExecFns;
use crate::axes::{MsgPoint, PointType};
use crate::decimal::{check_decimal, is_decimal};
use crate::level::{Level, LEVEL_ZERO};
use crate::pattern::{
    captures, compile, compile_set, group_texts, regex_accepts, regex_captures, regex_matches,
    regex_plain, regex_set_accepts, regex_set_plain, regex_set_sources, regex_source, set_matches,
};

verus! {

/// The number of grammars.
pub const GRAMMARS: usize = 5;

/// The greatest number of bare numbers in a line.
pub const BARES: usize = 3;

/// The pattern of a number.
pub open spec fn deci_pattern() -> Seq<char> {
    "[-+]?[0-9]*\\.?[0-9]+(?:[eE][-+]?[0-9]+)?"@
}

/// The pattern of a line of one bare number. Behind the number may stand a
/// comma or white space.
pub open spec fn bare_one_pattern() -> Seq<char> {
    "^("@ + deci_pattern() + ")(?:\\s+|,\\s*)?$"@
}

/// The pattern of a line of two bare numbers, with a comma or white space
/// between them.
pub open spec fn bare_two_pattern() -> Seq<char> {
    "^("@ + deci_pattern() + ")(?:\\s+|,\\s*)("@ + deci_pattern() + ")(?:\\s+|,\\s*)?$"@
}

/// The pattern of a line of three bare numbers, with a comma or white space
/// between them.
pub open spec fn bare_three_pattern() -> Seq<char> {
    "^("@ + deci_pattern() + ")(?:\\s+|,\\s*)("@ + deci_pattern() + ")(?:\\s+|,\\s*)("@
        + deci_pattern() + ")(?:\\s+|,\\s*)?$"@
}

/// The patterns of the lines of bare numbers: at place `k` that of `k + 1`
/// numbers.
pub open spec fn bare_patterns() -> Seq<Seq<char>> {
    seq![bare_one_pattern(), bare_two_pattern(), bare_three_pattern()]
}

/// The name of the signal that bare numbers belong to.
pub open spec fn bare_name() -> Seq<char> {
    "csv"@
}

/// The pattern of a point with one value.
pub open spec fn one_pattern() -> Seq<char> {
    "~\\.(.+)@\\s*("@ + deci_pattern() + ")"@
}

/// The pattern of a point with two values.
pub open spec fn two_pattern() -> Seq<char> {
    "~\\.(.+)@\\s*("@ + deci_pattern() + ")\\s*,\\s*("@ + deci_pattern() + ")"@
}

/// The pattern of a point with three values.
pub open spec fn three_pattern() -> Seq<char> {
    "~\\.(.+)@\\s*("@ + deci_pattern() + ")\\s*,\\s*("@ + deci_pattern() + ")\\s*,\\s*("@
        + deci_pattern() + ")"@
}

/// The pattern of a list: a name, the numbers of rows and columns, which may
/// be missing, and the payload.
pub open spec fn list_pattern() -> Seq<char> {
    "~#(.+)#(?:(\\d+),(\\d+))?@((?:(?:"@ + deci_pattern() + ")|,|\\(|\\)|\\s)+)"@
}

/// The pattern of a node: a name, an id and indices.
pub open spec fn node_pattern() -> Seq<char> {
    "~%(.+)@(\\d+)\\[((?:\\d+|,|\\s)*)\\]"@
}

/// The patterns of the grammars, the most specific last.
pub open spec fn grammar_patterns() -> Seq<Seq<char>> {
    seq![one_pattern(), two_pattern(), three_pattern(), list_pattern(), node_pattern()]
}

/// The number of groups of each grammar: the whole match, the name, and the
/// fields.
pub open spec fn grammar_groups() -> Seq<nat> {
    seq![3, 4, 5, 5, 4]
}

/// What one line was read as.
pub enum Reading {
    /// A point of the signal `name`, with the text of each of its fields; a
    /// field that the line left out has none.
    Decoded { name: Seq<char>, fields: Seq<Option<Seq<char>>> },
    /// A line for the signal `name` with a field that is no number.
    Malformed { name: Seq<char> },
    /// A line that encodes nothing.
    Passthrough { line: Seq<char> },
}

/// What one line was classified as.
#[derive(Debug)]
pub enum Classified {
    /// A point of the signal `name`, with the text of each of its fields; a
    /// field that the line left out has none.
    Decoded { name: String, fields: Vec<Option<String>> },
    /// A line for the signal `name` with a field that is no number.
    Malformed { name: String },
    /// A line that encodes nothing, as it came.
    Passthrough(String),
}

impl Classified {
    /// What the line was read as.
    pub open spec fn view(&self) -> Reading {
        match self {
            Classified::Decoded { name, fields } => Reading::Decoded {
                name: name@,
                fields: group_texts(fields@),
            },
            Classified::Malformed { name } => Reading::Malformed { name: name@ },
            Classified::Passthrough(line) => Reading::Passthrough { line: line@ },
        }
    }
}

/// The last of the first `n` patterns that matches `data`, if one does.
pub open spec fn last_match(patterns: Seq<Seq<char>>, data: Seq<char>, n: int) -> Option<int>
    decreases n,
{
    if n <= 0 {
        None
    } else if regex_matches(patterns[n - 1], data) {
        Some(n - 1)
    } else {
        last_match(patterns, data, n - 1)
    }
}

/// The groups from place `from` on, which are none where there are fewer
/// groups.
pub open spec fn fields_from(groups: Seq<Option<Seq<char>>>, from: int) -> Seq<Option<Seq<char>>> {
    if 0 <= from <= groups.len() {
        groups.skip(from)
    } else {
        Seq::empty()
    }
}

/// Whether a group from place `from` on holds a text that is no number.
pub open spec fn has_bad_field(groups: Seq<Option<Seq<char>>>, from: int) -> bool {
    exists|i: int|
        from <= i < groups.len() && (#[trigger] groups[i]) is Some && !is_decimal(groups[i]->0)
}

/// What the captured groups of a line say that a grammar matched. The group
/// at place 1 is the name and the groups behind it are the fields. Without a
/// name the line is passed through; with a field that is no number it is
/// malformed.
pub open spec fn decoded(groups: Seq<Option<Seq<char>>>, line: Seq<char>) -> Reading {
    if groups.len() < 2 || groups[1] is None {
        Reading::Passthrough { line }
    } else if has_bad_field(groups, 2) {
        Reading::Malformed { name: groups[1]->0 }
    } else {
        Reading::Decoded { name: groups[1]->0, fields: fields_from(groups, 2) }
    }
}

/// What the captured groups of a line of bare numbers say: the groups from
/// place 1 on are the values of a point of the signal `csv`.
pub open spec fn bare_decoded(groups: Seq<Option<Seq<char>>>) -> Reading {
    if has_bad_field(groups, 1) {
        Reading::Malformed { name: bare_name() }
    } else {
        Reading::Decoded { name: bare_name(), fields: fields_from(groups, 1) }
    }
}

/// What a line of `count` bare numbers is read as: a point of the signal
/// `csv` with that many values.
pub open spec fn bare_reading(line: Seq<char>, count: int) -> Reading {
    match regex_captures(bare_patterns()[count - 1], line) {
        None => Reading::Passthrough { line },
        Some(groups) => if groups.len() == count + 1 {
            bare_decoded(groups)
        } else {
            Reading::Passthrough { line }
        },
    }
}

/// What a line that holds no bare numbers is read as: the last grammar that
/// matches it decodes it, and a line that no grammar matches is passed through
/// unchanged.
pub open spec fn grammar_reading(line: Seq<char>) -> Reading {
    match last_match(grammar_patterns(), line, GRAMMARS as int) {
        None => Reading::Passthrough { line },
        Some(grammar) => match regex_captures(grammar_patterns()[grammar], line) {
            None => Reading::Passthrough { line },
            Some(groups) => if groups.len() == grammar_groups()[grammar] {
                decoded(groups, line)
            } else {
                Reading::Passthrough { line }
            },
        },
    }
}

/// What a line is read as. A line of one to three bare numbers is a point of
/// the signal `csv`, with as many values as it holds numbers. Any other line is
/// read by the grammars.
pub open spec fn reading_of(line: Seq<char>) -> Reading {
    match last_match(bare_patterns(), line, BARES as int) {
        Some(k) => bare_reading(line, k + 1),
        None => grammar_reading(line),
    }
}

/// The pattern of a number.
pub fn deci() -> (p: &'static str)
    ensures
        p@ == deci_pattern(),
{
    "[-+]?[0-9]*\\.?[0-9]+(?:[eE][-+]?[0-9]+)?"
}

/// Builds the pattern of a line of one bare number.
pub fn bare_one() -> (p: String)
    ensures
        p@ == bare_one_pattern(),
{
    let mut p = String::from_str("^(");
    p.append(deci());
    p.append(")(?:\\s+|,\\s*)?$");
    p
}

/// Builds the pattern of a line of two bare numbers.
pub fn bare_two() -> (p: String)
    ensures
        p@ == bare_two_pattern(),
{
    let mut p = String::from_str("^(");
    p.append(deci());
    p.append(")(?:\\s+|,\\s*)(");
    p.append(deci());
    p.append(")(?:\\s+|,\\s*)?$");
    p
}

/// Builds the pattern of a line of three bare numbers.
pub fn bare_three() -> (p: String)
    ensures
        p@ == bare_three_pattern(),
{
    let mut p = String::from_str("^(");
    p.append(deci());
    p.append(")(?:\\s+|,\\s*)(");
    p.append(deci());
    p.append(")(?:\\s+|,\\s*)(");
    p.append(deci());
    p.append(")(?:\\s+|,\\s*)?$");
    p
}

/// Builds the pattern of a point with one value.
pub fn one() -> (p: String)
    ensures
        p@ == one_pattern(),
{
    let mut p = String::from_str("~\\.(.+)@\\s*(");
    p.append(deci());
    p.append(")");
    p
}

/// Builds the pattern of a point with two values.
pub fn two() -> (p: String)
    ensures
        p@ == two_pattern(),
{
    let mut p = String::from_str("~\\.(.+)@\\s*(");
    p.append(deci());
    p.append(")\\s*,\\s*(");
    p.append(deci());
    p.append(")");
    p
}

/// Builds the pattern of a point with three values.
pub fn three() -> (p: String)
    ensures
        p@ == three_pattern(),
{
    let mut p = String::from_str("~\\.(.+)@\\s*(");
    p.append(deci());
    p.append(")\\s*,\\s*(");
    p.append(deci());
    p.append(")\\s*,\\s*(");
    p.append(deci());
    p.append(")");
    p
}

/// Builds the pattern of a list.
pub fn list() -> (p: String)
    ensures
        p@ == list_pattern(),
{
    let mut p = String::from_str("~#(.+)#(?:(\\d+),(\\d+))?@((?:(?:");
    p.append(deci());
    p.append(")|,|\\(|\\)|\\s)+)");
    p
}

/// Builds the pattern of a node.
pub fn node() -> (p: String)
    ensures
        p@ == node_pattern(),
{
    String::from_str("~%(.+)@(\\d+)\\[((?:\\d+|,|\\s)*)\\]")
}

/// The number of groups that the grammar at place `grammar` has.
pub fn groups_of(grammar: usize) -> (groups: usize)
    requires
        grammar < GRAMMARS,
    ensures
        groups == grammar_groups()[grammar as int],
{
    if grammar == 0 {
        3
    } else if grammar == 1 {
        4
    } else if grammar == 2 {
        5
    } else if grammar == 3 {
        5
    } else {
        4
    }
}

/// Picks, among the places of the grammars that match, the greatest.
pub fn select_grammar(which: &Vec<usize>) -> (selected: Option<usize>)
    ensures
        selected is None <==> which@.len() == 0,
        selected is Some ==> which@.contains(selected->0) && forall|k: int|
            0 <= k < which@.len() ==> (#[trigger] which@[k]) <= selected->0,
{
    if which.len() == 0 {
        return None;
    }
    let mut idx: usize = which[0];
    let mut i: usize = 1;
    while i < which.len()
        invariant
            1 <= i <= which@.len(),
            which@.contains(idx),
            forall|k: int| 0 <= k < i ==> (#[trigger] which@[k]) <= idx,
        decreases which@.len() - i,
    {
        if which[i] > idx {
            idx = which[i];
        }
        i += 1;
    }
    Some(idx)
}

/// A copy of a text that may be missing.
pub fn copy_text(text: &Option<String>) -> (copy: Option<String>)
    ensures
        copy is Some <==> text is Some,
        copy is Some ==> copy->0@ == text->0@,
{
    match text {
        Some(t) => Some(t.clone()),
        None => None,
    }
}

/// Reads the fields among the captured groups, which are those from place
/// `from` on. There are none to read where one of them is no number.
pub fn read_fields(groups: &Vec<Option<String>>, from: usize) -> (fields: Option<
    Vec<Option<String>>,
>)
    ensures
        fields is None <==> has_bad_field(group_texts(groups@), from as int),
        fields is Some ==> group_texts(fields->0@) == fields_from(
            group_texts(groups@),
            from as int,
        ),
{
    let ghost texts = group_texts(groups@);
    let mut fields: Vec<Option<String>> = Vec::new();
    if from > groups.len() {
        assert(group_texts(fields@) =~= fields_from(texts, from as int));
        return Some(fields);
    }
    let mut i: usize = from;
    while i < groups.len()
        invariant
            from <= i <= groups@.len(),
            texts == group_texts(groups@),
            fields@.len() == i - from,
            forall|k: int| 0 <= k < fields@.len() ==> group_texts(fields@)[k] == texts[k + from],
            forall|k: int| from <= k < i && (#[trigger] texts[k]) is Some ==> is_decimal(texts[k]->0),
        decreases groups@.len() - i,
    {
        match &groups[i] {
            Some(t) => {
                if !check_decimal(t.as_str()) {
                    assert(texts[i as int] is Some && !is_decimal(texts[i as int]->0));
                    return None;
                }
            },
            None => {},
        }
        let ghost before = fields@;
        fields.push(copy_text(&groups[i]));
        proof {
            assert forall|k: int| 0 <= k < fields@.len() implies group_texts(fields@)[k] == texts[k
                + from] by {
                if k < before.len() {
                    assert(fields@[k] == before[k]);
                    assert(group_texts(before)[k] == texts[k + from]);
                }
            }
        }
        i += 1;
    }
    assert(group_texts(fields@) =~= texts.skip(from as int));
    Some(fields)
}

/// Reads the captured groups of a line that a grammar matched.
pub fn decode_captures(groups: &Vec<Option<String>>, line: &str) -> (r: Classified)
    ensures
        r@ == decoded(group_texts(groups@), line@),
{
    if groups.len() < 2 {
        return Classified::Passthrough(String::from_str(line));
    }
    let name = match &groups[1] {
        Some(n) => n.clone(),
        None => {
            return Classified::Passthrough(String::from_str(line));
        },
    };
    assert(group_texts(groups@)[1] == Some(name@));
    match read_fields(groups, 2) {
        Some(fields) => Classified::Decoded { name, fields },
        None => Classified::Malformed { name },
    }
}

/// Reads the captured groups of a line of bare numbers.
pub fn decode_bare(groups: &Vec<Option<String>>) -> (r: Classified)
    ensures
        r@ == bare_decoded(group_texts(groups@)),
{
    let name = String::from_str("csv");
    match read_fields(groups, 1) {
        Some(fields) => Classified::Decoded { name, fields },
        None => Classified::Malformed { name },
    }
}

/// Builds a decoded point from the numbers of its fields. Up to three
/// fields are its values, in order, and fix its type; a field that the line
/// left out counts as zero. Any other number of fields makes a marker without
/// values.
pub fn handle_caps(name: String, fields: &Vec<Option<i64>>, timestamp: Level, ln: usize) -> (point:
    MsgPoint)
    ensures
        point.name == name,
        point.line_number == ln,
        point.timestamp == timestamp,
        point.ty == (if fields@.len() == 1 {
            PointType::D1
        } else if fields@.len() == 2 {
            PointType::D2
        } else if fields@.len() == 3 {
            PointType::D3
        } else {
            PointType::BreakPoint
        }),
        point.x == (if 1 <= fields@.len() <= 3 {
            Some(number_of(fields@[0]))
        } else {
            None
        }),
        point.y == (if 2 <= fields@.len() <= 3 {
            Some(number_of(fields@[1]))
        } else {
            None
        }),
        point.z == (if fields@.len() == 3 {
            Some(number_of(fields@[2]))
        } else {
            None
        }),
{
    let n = fields.len();
    if n == 1 {
        MsgPoint {
            name,
            line_number: ln,
            timestamp,
            ty: PointType::D1,
            x: Some(number(fields[0])),
            y: None,
            z: None,
        }
    } else if n == 2 {
        MsgPoint {
            name,
            line_number: ln,
            timestamp,
            ty: PointType::D2,
            x: Some(number(fields[0])),
            y: Some(number(fields[1])),
            z: None,
        }
    } else if n == 3 {
        MsgPoint {
            name,
            line_number: ln,
            timestamp,
            ty: PointType::D3,
            x: Some(number(fields[0])),
            y: Some(number(fields[1])),
            z: Some(number(fields[2])),
        }
    } else {
        MsgPoint {
            name,
            line_number: ln,
            timestamp,
            ty: PointType::BreakPoint,
            x: None,
            y: None,
            z: None,
        }
    }
}

/// The number of a field: its own, or zero where the line left it out.
pub open spec fn number_of(field: Option<i64>) -> i64 {
    match field {
        Some(key) => key,
        None => LEVEL_ZERO,
    }
}

/// The number of a field: its own, or zero where the line left it out.
pub fn number(field: Option<i64>) -> (key: i64)
    ensures
        key == number_of(field),
{
    match field {
        Some(key) => key,
        None => LEVEL_ZERO,
    }
}

/// The compiled patterns.
pub struct Classifier {
    set: regex::RegexSet,
    grabbers: Vec<regex::Regex>,
    bares: Vec<regex::Regex>,
}

/// Whether compiling gave a regular expression for each of `count`
/// patterns.
pub open spec fn all_given(list: Seq<Result<regex::Regex, regex::Error>>, count: int) -> bool {
    &&& list.len() == count
    &&& forall|i: int| 0 <= i < list.len() ==> (#[trigger] list[i]) is Ok
}

/// Takes the regular expressions out of what compiling gave. There are none
/// where one pattern was refused, or where their number is not `count`.
pub fn take_all(list: Vec<Result<regex::Regex, regex::Error>>, count: usize) -> (taken: Option<
    Vec<regex::Regex>,
>)
    ensures
        taken is Some <==> all_given(list@, count as int),
        taken is Some ==> taken->0@.len() == list@.len() && forall|i: int|
            0 <= i < list@.len() ==> (#[trigger] taken->0@[i]) == list@[i]->Ok_0,
{
    if list.len() != count {
        return None;
    }
    let mut rest = list;
    let mut taken: Vec<regex::Regex> = Vec::new();
    let mut g: usize = 0;
    while g < count
        invariant
            g <= count,
            list@.len() == count,
            rest@ == list@.skip(g as int),
            taken@.len() == g,
            forall|i: int| 0 <= i < g ==> (#[trigger] list@[i]) is Ok,
            forall|i: int| 0 <= i < g ==> (#[trigger] taken@[i]) == list@[i]->Ok_0,
        decreases count - g,
    {
        assert(rest@[0] == list@[g as int]);
        match rest.remove(0) {
            Ok(re) => {
                taken.push(re);
            },
            Err(_) => {
                return None;
            },
        }
        assert(rest@ =~= list@.skip(g + 1));
        g += 1;
    }
    Some(taken)
}

/// Compiles each of the patterns.
pub fn compile_each(patterns: &Vec<String>) -> (compiled: Vec<Result<regex::Regex, regex::Error>>)
    ensures
        compiled@.len() == patterns@.len(),
        forall|i: int|
            0 <= i < patterns@.len() ==> ((#[trigger] compiled@[i]) is Ok <==> regex_accepts(
                patterns@[i]@,
            )),
        forall|i: int|
            0 <= i < patterns@.len() && (#[trigger] compiled@[i]) is Ok ==> regex_plain(
                compiled@[i]->Ok_0,
            ) && regex_source(compiled@[i]->Ok_0) == patterns@[i]@,
{
    let mut compiled: Vec<Result<regex::Regex, regex::Error>> = Vec::new();
    let mut g: usize = 0;
    while g < patterns.len()
        invariant
            g <= patterns@.len(),
            compiled@.len() == g,
            forall|i: int|
                0 <= i < g ==> ((#[trigger] compiled@[i]) is Ok <==> regex_accepts(patterns@[i]@)),
            forall|i: int|
                0 <= i < g && (#[trigger] compiled@[i]) is Ok ==> regex_plain(compiled@[i]->Ok_0)
                    && regex_source(compiled@[i]->Ok_0) == patterns@[i]@,
        decreases patterns@.len() - g,
    {
        compiled.push(compile(patterns[g].as_str()));
        g += 1;
    }
    compiled
}

impl Classifier {
    /// Each compiled pattern is as the crate makes it from the pattern that
    /// stands at its place among the grammars and the bare numbers.
    pub open spec fn wf(&self) -> bool {
        &&& regex_set_plain(self.grammar_set())
        &&& regex_set_sources(self.grammar_set()) == grammar_patterns()
        &&& self.grammars().len() == GRAMMARS
        &&& forall|g: int|
            0 <= g < GRAMMARS ==> regex_plain(#[trigger] self.grammars()[g]) && regex_source(
                self.grammars()[g],
            ) == grammar_patterns()[g]
        &&& self.bares().len() == BARES
        &&& forall|k: int|
            0 <= k < BARES ==> regex_plain(#[trigger] self.bares()[k]) && regex_source(
                self.bares()[k],
            ) == bare_patterns()[k]
    }

    /// Compiles the patterns. There is a classifier exactly where the regex
    /// crate accepts the set of the grammars, each grammar, and each pattern of
    /// bare numbers.
    pub fn new() -> (made: Option<Classifier>)
        ensures
            made is Some <==> regex_set_accepts(grammar_patterns()) && (forall|g: int|
                0 <= g < GRAMMARS ==> regex_accepts(#[trigger] grammar_patterns()[g])) && (forall|
                k: int,
            |
                0 <= k < BARES ==> regex_accepts(#[trigger] bare_patterns()[k])),
            made is Some ==> made->0.wf(),
    {
        let patterns = vec![one(), two(), three(), list(), node()];
        assert(Seq::new(patterns@.len(), |i: int| patterns@[i]@) =~= grammar_patterns());
        let numbers = vec![bare_one(), bare_two(), bare_three()];
        assert(numbers@[0]@ == bare_patterns()[0]);
        assert(numbers@[1]@ == bare_patterns()[1]);
        assert(numbers@[2]@ == bare_patterns()[2]);
        let set = compile_set(&patterns);
        let grammars = compile_each(&patterns);
        let bares = compile_each(&numbers);
        proof {
            assert(set is Ok <==> regex_set_accepts(grammar_patterns()));
            assert forall|g: int| 0 <= g < GRAMMARS implies (grammars@[g] is Ok <==> regex_accepts(
                #[trigger] grammar_patterns()[g],
            )) by {
                assert(patterns@[g]@ == grammar_patterns()[g]);
            }
            assert forall|k: int| 0 <= k < BARES implies (bares@[k] is Ok <==> regex_accepts(
                #[trigger] bare_patterns()[k],
            )) by {
                assert(numbers@[k]@ == bare_patterns()[k]);
            }
            if regex_set_accepts(grammar_patterns()) && (forall|g: int|
                0 <= g < GRAMMARS ==> regex_accepts(#[trigger] grammar_patterns()[g])) && (forall|
                k: int,
            |
                0 <= k < BARES ==> regex_accepts(#[trigger] bare_patterns()[k])) {
                assert forall|g: int| 0 <= g < grammars@.len() implies (#[trigger] grammars@[g])
                    is Ok by {
                    assert(regex_accepts(grammar_patterns()[g]));
                }
                assert forall|k: int| 0 <= k < bares@.len() implies (#[trigger] bares@[k]) is Ok by {
                    assert(regex_accepts(bare_patterns()[k]));
                }
                assert(Self::all_accepted(set, grammars@, bares@));
            }
            if Self::all_accepted(set, grammars@, bares@) {
                assert forall|g: int| 0 <= g < GRAMMARS implies regex_accepts(
                    #[trigger] grammar_patterns()[g],
                ) by {
                    assert(grammars@[g] is Ok);
                }
                assert forall|k: int| 0 <= k < BARES implies regex_accepts(
                    #[trigger] bare_patterns()[k],
                ) by {
                    assert(bares@[k] is Ok);
                }
            }
        }
        let made = Self::from_compiled(set, grammars, bares);
        proof {
            if made is Some {
                assert forall|g: int| 0 <= g < GRAMMARS implies regex_plain(
                    #[trigger] made->0.grammars()[g],
                ) && regex_source(made->0.grammars()[g]) == grammar_patterns()[g] by {
                    assert(patterns@[g]@ == grammar_patterns()[g]);
                    assert(grammars@[g] is Ok);
                }
                assert forall|k: int| 0 <= k < BARES implies regex_plain(
                    #[trigger] made->0.bares()[k],
                ) && regex_source(made->0.bares()[k]) == bare_patterns()[k] by {
                    assert(numbers@[k]@ == bare_patterns()[k]);
                    assert(bares@[k] is Ok);
                }
            }
        }
        made
    }

    /// The compiled set of the grammars.
    pub closed spec fn grammar_set(&self) -> regex::RegexSet {
        self.set
    }

    /// The compiled grammars, one by one.
    pub closed spec fn grammars(&self) -> Seq<regex::Regex> {
        self.grabbers@
    }

    /// The compiled patterns of the bare numbers.
    pub closed spec fn bares(&self) -> Seq<regex::Regex> {
        self.bares@
    }

    /// Whether compiling accepted every pattern: the set, each of the
    /// grammars, and each pattern of bare numbers, of which there are as many as
    /// the classifier needs.
    pub open spec fn all_accepted(
        set: Result<regex::RegexSet, regex::Error>,
        grammars: Seq<Result<regex::Regex, regex::Error>>,
        bares: Seq<Result<regex::Regex, regex::Error>>,
    ) -> bool {
        &&& set is Ok
        &&& all_given(grammars, GRAMMARS as int)
        &&& all_given(bares, BARES as int)
    }

    /// Puts a classifier together from what compiling the patterns gave.
    /// There is a classifier exactly where every pattern was accepted, and it
    /// holds what was compiled, each pattern at its place.
    pub fn from_compiled(
        set: Result<regex::RegexSet, regex::Error>,
        grammars: Vec<Result<regex::Regex, regex::Error>>,
        bares: Vec<Result<regex::Regex, regex::Error>>,
    ) -> (made: Option<Classifier>)
        ensures
            made is Some <==> Self::all_accepted(set, grammars@, bares@),
            made is Some ==> {
                &&& made->0.grammar_set() == set->Ok_0
                &&& made->0.grammars().len() == grammars@.len()
                &&& forall|g: int|
                    0 <= g < grammars@.len() ==> (#[trigger] made->0.grammars()[g])
                        == grammars@[g]->Ok_0
                &&& made->0.bares().len() == bares@.len()
                &&& forall|k: int|
                    0 <= k < bares@.len() ==> (#[trigger] made->0.bares()[k]) == bares@[k]->Ok_0
            },
    {
        let set = match set {
            Ok(set) => set,
            Err(_) => {
                return None;
            },
        };
        let grabbers = match take_all(grammars, GRAMMARS) {
            Some(taken) => taken,
            None => {
                return None;
            },
        };
        let bares = match take_all(bares, BARES) {
            Some(taken) => taken,
            None => {
                return None;
            },
        };
        Some(Classifier { set, grabbers, bares })
    }

    /// Reads a line as bare numbers, if it holds one to three of them, the
    /// greatest number first.
    pub fn classify_bare(&self, line: &str) -> (r: Option<Classified>)
        requires
            self.wf(),
        ensures
            r is Some <==> last_match(bare_patterns(), line@, BARES as int) is Some,
            r is Some ==> r->0@ == bare_reading(
                line@,
                last_match(bare_patterns(), line@, BARES as int)->0 + 1,
            ),
    {
        let mut k: usize = BARES;
        while k > 0
            invariant
                k <= BARES,
                self.wf(),
                forall|j: int| k <= j < BARES ==> !regex_matches(bare_patterns()[j], line@),
            decreases k,
        {
            k -= 1;
            assert(regex_plain(self.bares()[k as int]));
            match captures(&self.bares[k], line) {
                Some(groups) => {
                    proof {
                        lemma_last_match(bare_patterns(), line@, BARES as int, k as int);
                        assert(group_texts(groups@).len() == groups@.len());
                    }
                    if groups.len() == k + 2 {
                        return Some(decode_bare(&groups));
                    } else {
                        return Some(Classified::Passthrough(String::from_str(line)));
                    }
                },
                None => {},
            }
        }
        proof {
            lemma_no_match(bare_patterns(), line@, BARES as int);
        }
        None
    }

    /// Reads a line by the grammars: the last grammar that matches it decodes
    /// it.
    pub fn classify_grammar(&self, line: &str) -> (r: Classified)
        requires
            self.wf(),
        ensures
            r@ == grammar_reading(line@),
    {
        let which = set_matches(&self.set, line);
        match select_grammar(&which) {
            None => {
                proof {
                    assert forall|g: int| 0 <= g < GRAMMARS implies !regex_matches(
                        grammar_patterns()[g],
                        line@,
                    ) by {
                        if regex_matches(grammar_patterns()[g], line@) {
                            assert(which@.contains(g as usize));
                        }
                    }
                    lemma_no_match(grammar_patterns(), line@, GRAMMARS as int);
                }
                Classified::Passthrough(String::from_str(line))
            },
            Some(idx) => {
                proof {
                    assert forall|g: int| idx < g < GRAMMARS implies !regex_matches(
                        grammar_patterns()[g],
                        line@,
                    ) by {
                        if regex_matches(grammar_patterns()[g], line@) {
                            assert(which@.contains(g as usize));
                            let k = choose|k: int| 0 <= k < which@.len() && which@[k] == g as usize;
                            assert(which@[k] <= idx);
                        }
                    }
                    let k = choose|k: int| 0 <= k < which@.len() && which@[k] == idx;
                    assert(which@[k] < regex_set_sources(self.set).len());
                    lemma_last_match(grammar_patterns(), line@, GRAMMARS as int, idx as int);
                    assert(regex_plain(self.grammars()[idx as int]));
                }
                match captures(&self.grabbers[idx], line) {
                    Some(groups) => {
                        if groups.len() == groups_of(idx) {
                            assert(group_texts(groups@).len() == groups@.len());
                            decode_captures(&groups, line)
                        } else {
                            Classified::Passthrough(String::from_str(line))
                        }
                    },
                    None => Classified::Passthrough(String::from_str(line)),
                }
            },
        }
    }

    /// Classifies one line.
    pub fn classify(&self, line: &str) -> (r: Classified)
        requires
            self.wf(),
        ensures
            r@ == reading_of(line@),
    {
        match self.classify_bare(line) {
            Some(r) => r,
            None => self.classify_grammar(line),
        }
    }
}

/// Where none of the first `n` patterns matches, none is the last match.
proof fn lemma_no_match(patterns: Seq<Seq<char>>, data: Seq<char>, n: int)
    requires
        0 <= n <= patterns.len(),
        forall|g: int| 0 <= g < n ==> !regex_matches(patterns[g], data),
    ensures
        last_match(patterns, data, n) is None,
    decreases n,
{
    if n > 0 {
        lemma_no_match(patterns, data, n - 1);
    }
}

/// Where a pattern matches and none behind it among the first `n` does, it
/// is the last match.
proof fn lemma_last_match(patterns: Seq<Seq<char>>, data: Seq<char>, n: int, at: int)
    requires
        0 <= at < n <= patterns.len(),
        regex_matches(patterns[at], data),
        forall|g: int| at < g < n ==> !regex_matches(patterns[g], data),
    ensures
        last_match(patterns, data, n) == Some(at),
    decreases n,
{
    if n - 1 > at {
        lemma_last_match(patterns, data, n - 1, at);
    }
}

/// Precedence: of the first `n` patterns, the last match is the greatest
/// among those that match. So it is a pattern that matches, no pattern behind
/// it matches, and there is none only where no pattern matches.
pub proof fn lemma_precedence(patterns: Seq<Seq<char>>, data: Seq<char>, n: int)
    requires
        0 <= n <= patterns.len(),
    ensures
        last_match(patterns, data, n) is Some ==> {
            let at = last_match(patterns, data, n)->0;
            &&& 0 <= at < n
            &&& regex_matches(patterns[at], data)
            &&& forall|g: int| at < g < n ==> !regex_matches(#[trigger] patterns[g], data)
        },
        last_match(patterns, data, n) is None ==> forall|g: int|
            0 <= g < n ==> !regex_matches(#[trigger] patterns[g], data),
    decreases n,
{
    if n > 0 {
        lemma_precedence(patterns, data, n - 1);
    }
}

/// A line that matches the grammar of three values, and neither that of a
/// list nor that of a node nor a pattern of bare numbers, is never decoded
/// with fewer than three fields, whatever looser grammar it matches too.
pub proof fn lemma_three_values_win(line: Seq<char>)
    ensures
        last_match(bare_patterns(), line, BARES as int) is None && regex_matches(
            three_pattern(),
            line,
        ) && !regex_matches(list_pattern(), line) && !regex_matches(node_pattern(), line)
            && reading_of(line) is Decoded ==> reading_of(line)->fields.len() == 3,
{
    if regex_matches(three_pattern(), line) && !regex_matches(list_pattern(), line)
        && !regex_matches(node_pattern(), line) {
        lemma_last_match(grammar_patterns(), line, GRAMMARS as int, 2);
    }
}

/// Bare numbers are read with their number: a line that holds `count` bare
/// numbers and no more is, where it is decoded, a point of the signal `csv`
/// with `count` values. So three numbers parted by white space make a point of
/// three values, as three numbers parted by commas do.
pub proof fn lemma_bare_numbers_keep_their_count(line: Seq<char>, count: int)
    ensures
        1 <= count <= BARES && regex_matches(bare_patterns()[count - 1], line) && (forall|k: int|
            count <= k < BARES ==> !regex_matches(#[trigger] bare_patterns()[k], line))
            ==> reading_of(line) == bare_reading(line, count) && (reading_of(line) is Decoded
            ==> reading_of(line)->Decoded_name == bare_name() && reading_of(line)->fields.len() == count),
{
    if 1 <= count <= BARES && regex_matches(bare_patterns()[count - 1], line) && (forall|k: int|
        count <= k < BARES ==> !regex_matches(#[trigger] bare_patterns()[k], line)) {
        lemma_last_match(bare_patterns(), line, BARES as int, count - 1);
    }
}

/// A decoded line has one to three fields, and each field that the line
/// did not leave out is a decimal number.
pub proof fn lemma_decoded_fields_are_numbers(line: Seq<char>)
    ensures
        reading_of(line) is Decoded ==> {
            let fields = reading_of(line)->fields;
            &&& 1 <= fields.len() <= 3
            &&& forall|i: int|
                0 <= i < fields.len() && (#[trigger] fields[i]) is Some ==> is_decimal(fields[i]->0)
        },
{
    lemma_precedence(bare_patterns(), line, BARES as int);
    lemma_precedence(grammar_patterns(), line, GRAMMARS as int);
    if reading_of(line) is Decoded {
        let fields = reading_of(line)->fields;
        if last_match(bare_patterns(), line, BARES as int) is Some {
            let k = last_match(bare_patterns(), line, BARES as int)->0;
            let groups = regex_captures(bare_patterns()[k], line)->0;
            assert(fields == groups.skip(1));
            assert(fields.len() == k + 1);
            assert forall|i: int|
                0 <= i < fields.len() && (#[trigger] fields[i]) is Some implies is_decimal(
                fields[i]->0,
            ) by {
                assert(fields[i] == groups[i + 1]);
            }
        } else {
            let grammar = last_match(grammar_patterns(), line, GRAMMARS as int)->0;
            let groups = regex_captures(grammar_patterns()[grammar], line)->0;
            assert(fields == groups.skip(2));
            assert forall|i: int|
                0 <= i < fields.len() && (#[trigger] fields[i]) is Some implies is_decimal(
                fields[i]->0,
            ) by {
                assert(fields[i] == groups[i + 2]);
            }
        }
    }
}

/// A line that neither holds bare numbers nor matches a grammar is passed
/// through as it came, and so is every line that is passed through.
pub proof fn lemma_passthrough_keeps_line(line: Seq<char>)
    ensures
        reading_of(line) is Passthrough ==> reading_of(line)->line == line,
        (forall|k: int| 0 <= k < BARES ==> !regex_matches(bare_patterns()[k], line)) && (forall|
            g: int,
        |
            0 <= g < GRAMMARS ==> !regex_matches(grammar_patterns()[g], line)) ==> reading_of(line)
            == (Reading::Passthrough { line }),
{
    if (forall|k: int| 0 <= k < BARES ==> !regex_matches(bare_patterns()[k], line)) && (forall|
        g: int,
    |
        0 <= g < GRAMMARS ==> !regex_matches(grammar_patterns()[g], line)) {
        lemma_no_match(bare_patterns(), line, BARES as int);
        lemma_no_match(grammar_patterns(), line, GRAMMARS as int);
    }
}

} // verus!
