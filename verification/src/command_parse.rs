//! The commands of the prompt: what a command line means, what it does to
//! the signals when it is run, and what could complete it while it is typed.

use vstd::prelude::*;
use vstd::string::StringExecFns;
use vstd::view::View as _;
use crate::drawstyles::Styles;
use crate::level::LEVEL_ZERO;
use crate::signal::{is_fresh_state, Signal, SignalManager};
use crate::text::{chars_of, split_words, texts, words_of};
use crate::view::{AxisBind, View};

verus! {

/// What the prompt knows of a command line.
pub struct LineState {
    /// Whether the line is a command that can be run.
    pub valid: bool,
    /// What could stand in place of the term that is being typed.
    pub possible_completions: Vec<String>,
}

/// The words of a command from place `from` on: the names that the command
/// is about.
pub open spec fn args_from(bits: Seq<Seq<char>>, from: int) -> Seq<Seq<char>> {
    if bits.len() > from {
        bits.skip(from)
    } else {
        Seq::empty()
    }
}

/// Whether the names given are those to leave out: that is so where none is
/// given, and where the first word is `!`.
pub open spec fn is_inverse(args: Seq<Seq<char>>) -> bool {
    args.len() == 0 || args[0] == "!"@
}

/// Whether the signal `name` is left: it is not among the names to leave
/// out.
pub open spec fn is_left(args: Seq<Seq<char>>, name: Seq<char>) -> bool {
    !args.contains(name)
}

/// Those of the first `n` signals that are left, in the order of the
/// signals.
pub open spec fn left_upto(names: Seq<Seq<char>>, args: Seq<Seq<char>>, n: int) -> Seq<Seq<char>>
    decreases n,
{
    if n <= 0 {
        Seq::empty()
    } else if is_left(args, names[n - 1]) {
        left_upto(names, args, n - 1).push(names[n - 1])
    } else {
        left_upto(names, args, n - 1)
    }
}

/// Those of the first `n` words that name a signal, in the order in which
/// they are given, each once.
pub open spec fn named_upto(names: Seq<Seq<char>>, args: Seq<Seq<char>>, n: int) -> Seq<Seq<char>>
    decreases n,
{
    if n <= 0 {
        Seq::empty()
    } else if names.contains(args[n - 1]) && !named_upto(names, args, n - 1).contains(args[n - 1]) {
        named_upto(names, args, n - 1).push(args[n - 1])
    } else {
        named_upto(names, args, n - 1)
    }
}

/// The signals that are meant. Where the names are those to take, they are
/// the signals named, in the order in which they are named, so that the first
/// name given comes first. Where the names are those to leave out, they are
/// the other signals, in the order of the signals.
pub open spec fn chosen(names: Seq<Seq<char>>, args: Seq<Seq<char>>) -> Seq<Seq<char>> {
    if is_inverse(args) {
        left_upto(names, args, names.len() as int)
    } else {
        named_upto(names, args, args.len() as int)
    }
}

/// The completions that naming signals adds: every name, where at least one
/// word was given.
pub open spec fn name_completions(names: Seq<Seq<char>>, args: Seq<Seq<char>>) -> Seq<Seq<char>> {
    if args.len() > 0 {
        names
    } else {
        Seq::empty()
    }
}

/// The signals that are left are signals, each is left, and where no name
/// occurs twice among the signals, none occurs twice among them.
pub proof fn lemma_left(names: Seq<Seq<char>>, args: Seq<Seq<char>>, n: int)
    requires
        0 <= n <= names.len(),
    ensures
        forall|x: Seq<char>|
            #[trigger] left_upto(names, args, n).contains(x) <==> is_left(args, x) && exists|i: int|
                0 <= i < n && names[i] == x,
        names.no_duplicates() ==> left_upto(names, args, n).no_duplicates(),
    decreases n,
{
    if n > 0 {
        lemma_left(names, args, n - 1);
        let rest = left_upto(names, args, n - 1);
        let all = left_upto(names, args, n);
        assert forall|x: Seq<char>| #[trigger] all.contains(x) <==> is_left(args, x) && exists|i: int|
            0 <= i < n && names[i] == x by {
            if is_left(args, names[n - 1]) {
                assert(all == rest.push(names[n - 1]));
                if all.contains(x) {
                    let k = choose|k: int| 0 <= k < all.len() && all[k] == x;
                    if k < rest.len() {
                        assert(rest[k] == x);
                        assert(rest.contains(x));
                        let i = choose|i: int| 0 <= i < n - 1 && names[i] == x;
                        assert(0 <= i < n && names[i] == x);
                    } else {
                        assert(names[n - 1] == x);
                    }
                }
                if is_left(args, x) && exists|i: int| 0 <= i < n && names[i] == x {
                    let i = choose|i: int| 0 <= i < n && names[i] == x;
                    if i < n - 1 {
                        assert(rest.contains(x));
                        let k = choose|k: int| 0 <= k < rest.len() && rest[k] == x;
                        assert(all[k] == x);
                    } else {
                        assert(all[rest.len() as int] == x);
                    }
                }
            } else {
                if is_left(args, x) && exists|i: int| 0 <= i < n && names[i] == x {
                    let i = choose|i: int| 0 <= i < n && names[i] == x;
                    assert(i < n - 1);
                }
                if all.contains(x) {
                    let i = choose|i: int| 0 <= i < n - 1 && names[i] == x;
                    assert(0 <= i < n && names[i] == x);
                }
            }
        }
        if names.no_duplicates() && is_left(args, names[n - 1]) {
            assert forall|k: int, l: int| 0 <= k < all.len() && 0 <= l < all.len() && k != l implies all[k]
                != all[l] by {
                if k == rest.len() || l == rest.len() {
                    let m = if k == rest.len() {
                        l
                    } else {
                        k
                    };
                    assert(rest.contains(rest[m]));
                    let i = choose|i: int| 0 <= i < n - 1 && names[i] == rest[m];
                    assert(names[i] != names[n - 1]);
                }
            }
        }
    }
}

/// The signals that are named are signals, each is given, and none occurs
/// twice among them.
pub proof fn lemma_named(names: Seq<Seq<char>>, args: Seq<Seq<char>>, n: int)
    requires
        0 <= n <= args.len(),
    ensures
        forall|x: Seq<char>|
            #[trigger] named_upto(names, args, n).contains(x) <==> names.contains(x) && exists|
                i: int,
            |
                0 <= i < n && args[i] == x,
        named_upto(names, args, n).no_duplicates(),
    decreases n,
{
    if n > 0 {
        lemma_named(names, args, n - 1);
        let rest = named_upto(names, args, n - 1);
        let all = named_upto(names, args, n);
        let last = args[n - 1];
        assert forall|x: Seq<char>| #[trigger] all.contains(x) <==> names.contains(x) && exists|
            i: int,
        |
            0 <= i < n && args[i] == x by {
            if names.contains(last) && !rest.contains(last) {
                assert(all == rest.push(last));
                if all.contains(x) {
                    let k = choose|k: int| 0 <= k < all.len() && all[k] == x;
                    if k < rest.len() {
                        assert(rest[k] == x);
                        assert(rest.contains(x));
                        let i = choose|i: int| 0 <= i < n - 1 && args[i] == x;
                        assert(0 <= i < n && args[i] == x);
                    } else {
                        assert(args[n - 1] == x);
                    }
                }
                if names.contains(x) && exists|i: int| 0 <= i < n && args[i] == x {
                    let i = choose|i: int| 0 <= i < n && args[i] == x;
                    if i < n - 1 {
                        assert(rest.contains(x));
                        let k = choose|k: int| 0 <= k < rest.len() && rest[k] == x;
                        assert(all[k] == x);
                    } else {
                        assert(all[rest.len() as int] == x);
                    }
                }
            } else {
                assert(all == rest);
                if names.contains(x) && exists|i: int| 0 <= i < n && args[i] == x {
                    let i = choose|i: int| 0 <= i < n && args[i] == x;
                    if i == n - 1 {
                        assert(rest.contains(x));
                    }
                }
                if all.contains(x) {
                    let i = choose|i: int| 0 <= i < n - 1 && args[i] == x;
                    assert(0 <= i < n && args[i] == x);
                }
            }
        }
        if names.contains(last) && !rest.contains(last) {
            assert forall|k: int, l: int| 0 <= k < all.len() && 0 <= l < all.len() && k != l implies all[k]
                != all[l] by {
                if k == rest.len() || l == rest.len() {
                    let m = if k == rest.len() {
                        l
                    } else {
                        k
                    };
                    assert(rest.contains(rest[m]));
                }
            }
        }
    }
}

/// Every signal that is meant is a signal, and none is meant twice, where no
/// name occurs twice among the signals.
pub proof fn lemma_chosen(names: Seq<Seq<char>>, args: Seq<Seq<char>>)
    requires
        names.no_duplicates(),
    ensures
        chosen(names, args).no_duplicates(),
        forall|k: int|
            0 <= k < chosen(names, args).len() ==> names.contains(#[trigger] chosen(names, args)[k]),
{
    let all = chosen(names, args);
    if is_inverse(args) {
        lemma_left(names, args, names.len() as int);
    } else {
        lemma_named(names, args, args.len() as int);
    }
    assert forall|k: int| 0 <= k < all.len() implies names.contains(#[trigger] all[k]) by {
        assert(all.contains(all[k]));
        if is_inverse(args) {
            let i = choose|i: int| 0 <= i < names.len() && names[i] == all[k];
            assert(names[i] == all[k]);
        }
    }
}

/// Tells whether one of the texts is `name`.
pub fn is_among(list: &Vec<String>, name: &String) -> (among: bool)
    ensures
        among == texts(list@).contains(name@),
{
    let mut i: usize = 0;
    while i < list.len()
        invariant
            i <= list@.len(),
            forall|k: int| 0 <= k < i ==> texts(list@)[k] != name@,
        decreases list@.len() - i,
    {
        if list[i] == *name {
            assert(texts(list@)[i as int] == name@);
            return true;
        }
        i += 1;
    }
    false
}

/// Tells whether one of the words from place `from` on is `name`.
pub fn is_given(bits: &Vec<String>, from: usize, name: &String) -> (given: bool)
    ensures
        given == args_from(texts(bits@), from as int).contains(name@),
{
    let ghost args = args_from(texts(bits@), from as int);
    let mut i: usize = from;
    while i < bits.len()
        invariant
            from <= i <= bits@.len() || (from > bits@.len() && i == from),
            args == args_from(texts(bits@), from as int),
            forall|k: int| 0 <= k < i - from ==> args[k] != name@,
        decreases bits@.len() - i,
    {
        if bits[i] == *name {
            assert(args[i - from] == name@);
            return true;
        }
        i += 1;
    }
    false
}

/// Picks the signals that a command means. The words of the command from
/// place `from` on name them. They are the signals named, in the order in
/// which they are named; or, where no word is given or the first is `!`, the
/// signals not named, in their own order. Where a word is given, every name
/// is added to the completions.
pub fn select_signals(bits: &Vec<String>, from: usize, pc: &mut Vec<String>, man: &SignalManager) -> (rslt:
    Vec<String>)
    ensures
        texts(rslt@) == chosen(man.names(), args_from(texts(bits@), from as int)),
        texts(final(pc)@) == texts(old(pc)@) + name_completions(
            man.names(),
            args_from(texts(bits@), from as int),
        ),
{
    let ghost args = args_from(texts(bits@), from as int);
    let ghost names = man.names();
    let mut rslt: Vec<String> = Vec::new();
    let given = bits.len() > from;
    let inverse = if !given {
        true
    } else {
        bits[from] == String::from_str("!")
    };
    assert(given ==> args[0] == texts(bits@)[from as int]);
    assert(inverse == is_inverse(args));
    let all = man.get_names();
    assert(texts(all@) =~= names);
    if given {
        let mut i: usize = 0;
        while i < all.len()
            invariant
                i <= all@.len(),
                texts(all@) == names,
                texts(pc@) == texts(old(pc)@) + names.take(i as int),
            decreases all@.len() - i,
        {
            let ghost before = texts(pc@);
            pc.push(all[i].clone());
            assert(texts(pc@) =~= before.push(names[i as int]));
            assert(texts(pc@) =~= texts(old(pc)@) + names.take(i + 1));
            i += 1;
        }
        assert(names.take(all@.len() as int) =~= names);
    } else {
        assert(texts(pc@) =~= texts(old(pc)@) + Seq::<Seq<char>>::empty());
    }
    if inverse {
        let mut i: usize = 0;
        assert(texts(rslt@) =~= left_upto(names, args, 0));
        while i < all.len()
            invariant
                i <= all@.len(),
                texts(all@) == names,
                args == args_from(texts(bits@), from as int),
                texts(rslt@) == left_upto(names, args, i as int),
            decreases all@.len() - i,
        {
            let name = &all[i];
            if !is_given(bits, from, name) {
                let ghost before = texts(rslt@);
                rslt.push(name.clone());
                assert(texts(rslt@) =~= before.push(names[i as int]));
            }
            i += 1;
        }
    } else {
        let mut i: usize = from;
        assert(texts(rslt@) =~= named_upto(names, args, 0));
        while i < bits.len()
            invariant
                from <= i <= bits@.len(),
                texts(all@) == names,
                args == texts(bits@).skip(from as int),
                texts(rslt@) == named_upto(names, args, i - from),
            decreases bits@.len() - i,
        {
            let name = &bits[i];
            assert(args[i - from] == name@);
            if is_among(&all, name) && !is_among(&rslt, name) {
                let ghost before = texts(rslt@);
                rslt.push(name.clone());
                assert(texts(rslt@) =~= before.push(name@));
            }
            i += 1;
        }
    }
    return rslt;
}

/// Where no two signals have the same name, the names hold no name twice, a
/// name is known exactly where it is among them, and it is found at the place
/// where it stands.
pub proof fn lemma_names(man: &SignalManager)
    requires
        man.wf(),
    ensures
        man.names().no_duplicates(),
        man.names().len() == man.signals().len(),
        forall|x: Seq<char>| #[trigger] man.has(x) <==> man.names().contains(x),
        forall|i: int|
            0 <= i < man.signals().len() ==> man.place(#[trigger] man.signals()[i].name@) == i,
{
    let names = man.names();
    assert forall|i: int, j: int| 0 <= i < names.len() && 0 <= j < names.len() && i != j implies names[i]
        != names[j] by {
        if i < j {
            assert(man.signals()[i].name@ != man.signals()[j].name@);
        } else {
            assert(man.signals()[j].name@ != man.signals()[i].name@);
        }
    }
    assert forall|x: Seq<char>| #[trigger] man.has(x) <==> names.contains(x) by {
        if man.has(x) {
            let i = choose|i: int| 0 <= i < man.signals().len() && (#[trigger] man.signals()[i]).name@
                == x;
            assert(names[i] == x);
        }
        if names.contains(x) {
            let i = choose|i: int| 0 <= i < names.len() && names[i] == x;
            assert(man.signals()[i].name@ == x);
        }
    }
    assert forall|i: int| 0 <= i < man.signals().len() implies man.place(
        #[trigger] man.signals()[i].name@,
    ) == i by {
        man.lemma_place(man.signals()[i].name@, i);
    }
}

/// A list with a name added holds what it held before, and that name.
proof fn lemma_contains_push(done: Seq<Seq<char>>, x: Seq<char>)
    ensures
        forall|n: Seq<char>| #[trigger] done.push(x).contains(n) <==> (done.contains(n) || n == x),
{
    let next = done.push(x);
    assert forall|n: Seq<char>| #[trigger] next.contains(n) <==> (done.contains(n) || n == x) by {
        if next.contains(n) {
            let j = choose|j: int| 0 <= j < next.len() && next[j] == n;
            if j < done.len() {
                assert(done[j] == n);
            }
        }
        if done.contains(n) {
            let j = choose|j: int| 0 <= j < done.len() && done[j] == n;
            assert(next[j] == n);
        }
        if n == x {
            assert(next[done.len() as int] == n);
        }
    }
}

/// What drawing the signals `sigs` in the way `style` does: each signal
/// whose name is among them is drawn that way from now on, and nothing else
/// changes.
pub open spec fn restyled(
    before: &SignalManager,
    after: &SignalManager,
    sigs: Seq<Seq<char>>,
    style: Styles,
) -> bool {
    &&& after.views() == before.views()
    &&& after.selection() == before.selection()
    &&& after.points_added() == before.points_added()
    &&& after.signals().len() == before.signals().len()
    &&& forall|i: int|
        0 <= i < before.signals().len() ==> #[trigger] after.signals()[i] == (if sigs.contains(
            before.signals()[i].name@,
        ) {
            Signal { style, ..before.signals()[i] }
        } else {
            before.signals()[i]
        })
}

/// Draws each of the signals `sigs` in the way `style`.
pub fn restyle(manager: &mut SignalManager, sigs: &Vec<String>, style: Styles)
    requires
        old(manager).wf(),
    ensures
        final(manager).wf(),
        restyled(old(manager), final(manager), texts(sigs@), style),
{
    let mut k: usize = 0;
    while k < sigs.len()
        invariant
            k <= sigs@.len(),
            manager.wf(),
            restyled(old(manager), manager, texts(sigs@).take(k as int), style),
        decreases sigs@.len() - k,
    {
        let ghost mid = *manager;
        manager.set_style(&sigs[k], &style);
        proof {
            let x = sigs@[k as int]@;
            let done = texts(sigs@).take(k as int);
            let next = texts(sigs@).take(k + 1);
            assert(next =~= done.push(x));
            lemma_contains_push(done, x);
            lemma_names(&mid);
            assert forall|i: int|
                0 <= i < old(manager).signals().len() implies #[trigger] manager.signals()[i]
                == (if next.contains(old(manager).signals()[i].name@) {
                Signal { style, ..old(manager).signals()[i] }
            } else {
                old(manager).signals()[i]
            }) by {
                assert(mid.signals()[i].name@ == old(manager).signals()[i].name@);
                if mid.has(x) {
                    let p = mid.place(x);
                    if i != p {
                        assert(mid.place(mid.signals()[i].name@) == i);
                    }
                } else {
                    assert(!mid.names().contains(x));
                    assert(mid.names()[i] == mid.signals()[i].name@);
                }
            }
        }
        k += 1;
    }
    assert(texts(sigs@).take(sigs@.len() as int) =~= texts(sigs@));
}

/// What selecting the signals `sigs` one after the other does: the last of
/// them is selected, where a signal has its name, and nothing else changes.
pub open spec fn selected(before: &SignalManager, after: &SignalManager, sigs: Seq<Seq<char>>) -> bool {
    &&& after.signals() == before.signals()
    &&& after.views() == before.views()
    &&& after.points_added() == before.points_added()
    &&& after.selection() == (if sigs.len() == 0 {
        before.selection()
    } else if before.has(sigs.last()) {
        Some(sigs.last())
    } else {
        None
    })
}

/// Selects each of the signals `sigs` in turn.
pub fn select_each(manager: &mut SignalManager, sigs: &Vec<String>)
    ensures
        selected(old(manager), final(manager), texts(sigs@)),
        old(manager).wf() ==> final(manager).wf(),
{
    let mut k: usize = 0;
    while k < sigs.len()
        invariant
            k <= sigs@.len(),
            selected(old(manager), manager, texts(sigs@).take(k as int)),
        decreases sigs@.len() - k,
    {
        manager.set_selection(Some(sigs[k].clone()));
        proof {
            assert(texts(sigs@).take(k + 1).last() == sigs@[k as int]@);
        }
        k += 1;
    }
    assert(texts(sigs@).take(sigs@.len() as int) =~= texts(sigs@));
}

/// What binding the signals `sigs` with the mask `mode` does. The first of
/// them is the base: it gets the mask, and every other one gets a copy of its
/// view handle, so that all of them look at the state of the base. With fewer
/// than two signals nothing changes.
pub open spec fn bound_all(
    before: &SignalManager,
    after: &SignalManager,
    sigs: Seq<Seq<char>>,
    mode: u8,
) -> bool {
    if sigs.len() > 1 && before.has(sigs[0]) {
        let b = before.place(sigs[0]);
        let view = View { mode, ..before.signals()[b].view };
        &&& after.views() == before.views()
        &&& after.selection() == before.selection()
        &&& after.points_added() == before.points_added()
        &&& after.signals().len() == before.signals().len()
        &&& forall|i: int|
            0 <= i < before.signals().len() ==> #[trigger] after.signals()[i] == (if i == b
                || sigs.skip(1).contains(before.signals()[i].name@) {
                Signal { view, ..before.signals()[i] }
            } else {
                before.signals()[i]
            })
    } else {
        after.same_as(before)
    }
}

/// Binds the signals `sigs` with the mask `mode`, the first of them being
/// the base.
pub fn bind_each(manager: &mut SignalManager, sigs: &Vec<String>, mode: u8)
    requires
        old(manager).wf(),
    ensures
        final(manager).wf(),
        bound_all(old(manager), final(manager), texts(sigs@), mode),
{
    if sigs.len() > 1 {
        let base = &sigs[0];
        let ghost names = texts(sigs@);
        assert(names[0] == base@);
        if manager.position(base).is_none() {
            return ;
        }
        manager.set_bind_mode(base, mode);
        let ghost b = old(manager).place(base@);
        let ghost view = View { mode, ..old(manager).signals()[b].view };
        proof {
            lemma_names(old(manager));
        }
        let mut k: usize = 1;
        while k < sigs.len()
            invariant
                1 <= k <= sigs@.len(),
                names == texts(sigs@),
                names[0] == base@,
                old(manager).wf(),
                old(manager).has(base@),
                b == old(manager).place(base@),
                view == (View { mode, ..old(manager).signals()[b].view }),
                manager.wf(),
                manager.views() == old(manager).views(),
                manager.selection() == old(manager).selection(),
                manager.points_added() == old(manager).points_added(),
                manager.signals().len() == old(manager).signals().len(),
                forall|i: int|
                    0 <= i < old(manager).signals().len() ==> #[trigger] manager.signals()[i] == (
                    if i == b || names.subrange(1, k as int).contains(
                        old(manager).signals()[i].name@,
                    ) {
                        Signal { view, ..old(manager).signals()[i] }
                    } else {
                        old(manager).signals()[i]
                    }),
            decreases sigs@.len() - k,
        {
            let ghost mid = *manager;
            manager.bind(base, &sigs[k]);
            proof {
                let x = sigs@[k as int]@;
                let done = names.subrange(1, k as int);
                let next = names.subrange(1, k + 1);
                assert(next =~= done.push(x));
                lemma_contains_push(done, x);
                lemma_names(&mid);
                assert(mid.signals()[b].name@ == base@);
                mid.lemma_place(base@, b);
                assert forall|i: int|
                    0 <= i < old(manager).signals().len() implies #[trigger] manager.signals()[i]
                    == (if i == b || next.contains(old(manager).signals()[i].name@) {
                    Signal { view, ..old(manager).signals()[i] }
                } else {
                    old(manager).signals()[i]
                }) by {
                    assert(mid.signals()[i].name@ == old(manager).signals()[i].name@);
                    if mid.has(x) {
                        let p = mid.place(x);
                        if i != p {
                            assert(mid.place(mid.signals()[i].name@) == i);
                        }
                    } else {
                        assert(!mid.names().contains(x));
                        assert(mid.names()[i] == mid.signals()[i].name@);
                    }
                }
            }
            k += 1;
        }
        assert(names.subrange(1, sigs@.len() as int) =~= names.skip(1));
    }
}

/// What freeing the signals `sigs` one after the other does: for each of
/// them a fresh state is added, in their order, and the signal gets a handle of
/// its own on it, bound on no axis. Nothing else changes.
pub open spec fn freed_all(before: &SignalManager, after: &SignalManager, sigs: Seq<Seq<char>>) -> bool {
    &&& after.selection() == before.selection()
    &&& after.points_added() == before.points_added()
    &&& after.views().len() == before.views().len() + sigs.len()
    &&& forall|v: int|
        0 <= v < before.views().len() ==> #[trigger] after.views()[v] == before.views()[v]
    &&& forall|k: int|
        0 <= k < sigs.len() ==> is_fresh_state(
            #[trigger] after.views()[before.views().len() + k],
            sigs[k],
        )
    &&& after.signals().len() == before.signals().len()
    &&& forall|i: int|
        0 <= i < before.signals().len() ==> #[trigger] after.signals()[i] == (Signal {
            view: after.signals()[i].view,
            ..before.signals()[i]
        })
    &&& forall|i: int|
        0 <= i < before.signals().len() && !sigs.contains(before.signals()[i].name@)
            ==> #[trigger] after.signals()[i] == before.signals()[i]
    &&& forall|i: int, k: int|
        #![trigger after.signals()[i], sigs[k]]
        0 <= i < before.signals().len() && 0 <= k < sigs.len() && sigs[k]
            == before.signals()[i].name@ ==> {
            &&& after.signals()[i].view.data == before.views().len() + k
            &&& after.signals()[i].view.mode == 0
            &&& after.signals()[i].view.local_pos == (Some(LEVEL_ZERO), Some(LEVEL_ZERO))
        }
}

/// Frees each of the signals `sigs`, which are known and all different.
fn free_each(manager: &mut SignalManager, sigs: &Vec<String>)
    requires
        old(manager).wf(),
        texts(sigs@).no_duplicates(),
        forall|k: int| 0 <= k < sigs@.len() ==> old(manager).has(#[trigger] texts(sigs@)[k]),
    ensures
        final(manager).wf(),
        freed_all(old(manager), final(manager), texts(sigs@)),
{
    let ghost names = texts(sigs@);
    let mut k: usize = 0;
    while k < sigs.len()
        invariant
            k <= sigs@.len(),
            names == texts(sigs@),
            names.no_duplicates(),
            old(manager).wf(),
            forall|j: int| 0 <= j < sigs@.len() ==> old(manager).has(#[trigger] names[j]),
            manager.wf(),
            freed_all(old(manager), manager, names.take(k as int)),
        decreases sigs@.len() - k,
    {
        let ghost mid = *manager;
        manager.free(&sigs[k]);
        proof {
            let x = names[k as int];
            let done = names.take(k as int);
            let next = names.take(k + 1);
            assert(next =~= done.push(x));
            assert(!done.contains(x)) by {
                if done.contains(x) {
                    let j = choose|j: int| 0 <= j < done.len() && done[j] == x;
                    assert(names[j] == names[k as int]);
                }
            }
            lemma_contains_push(done, x);
            lemma_names(&mid);
            lemma_names(old(manager));
            let q = old(manager).place(x);
            assert(old(manager).has(x));
            assert(mid.signals()[q].name@ == x);
            mid.lemma_place(x, q);
            let first = old(manager).views().len();
            assert(manager.views().drop_last() == mid.views());
            let kept = old(manager).views();
            assert forall|v: int| 0 <= v < first implies #[trigger] manager.views()[v] == kept[v] by {
                assert(manager.views().drop_last()[v] == mid.views()[v]);
            }
            assert forall|j: int| 0 <= j < next.len() implies is_fresh_state(
                #[trigger] manager.views()[first + j],
                next[j],
            ) by {
                if j < done.len() {
                    assert(manager.views().drop_last()[first + j] == mid.views()[first + j]);
                    assert(done[j] == next[j]);
                }
            }
            assert forall|i: int, j: int|
                #![trigger manager.signals()[i], next[j]]
                0 <= i < old(manager).signals().len() && 0 <= j < next.len() && next[j]
                    == old(manager).signals()[i].name@ implies {
                &&& manager.signals()[i].view.data == first + j
                &&& manager.signals()[i].view.mode == 0
                &&& manager.signals()[i].view.local_pos == (Some(LEVEL_ZERO), Some(LEVEL_ZERO))
            } by {
                if j < done.len() {
                    assert(done[j] == next[j]);
                    assert(i != q);
                    assert(mid.signals()[i].view.data == first + j);
                } else {
                    old(manager).lemma_place(x, i);
                }
            }
            assert forall|i: int|
                0 <= i < old(manager).signals().len() && !next.contains(
                    old(manager).signals()[i].name@,
                ) implies #[trigger] manager.signals()[i] == old(manager).signals()[i] by {
                assert(!done.contains(old(manager).signals()[i].name@));
                assert(i != q);
            }
        }
        k += 1;
    }
    assert(names.take(sigs@.len() as int) =~= names);
}

/// The way of drawing that a word names.
pub open spec fn style_named(word: Seq<char>) -> Option<Styles> {
    if word == "scatter"@ {
        Some(Styles::Scatter)
    } else if word == "lines"@ {
        Some(Styles::Lines)
    } else {
        None
    }
}

/// The bit of the bind mask that a letter names.
pub open spec fn axis_mask(c: char) -> Option<u8> {
    if c == '_' {
        Some(AxisBind::Unbound.mask())
    } else if c == 'x' {
        Some(AxisBind::X.mask())
    } else if c == 'y' {
        Some(AxisBind::Y.mask())
    } else if c == 'z' {
        Some(AxisBind::Z.mask())
    } else {
        None
    }
}

/// The bind mask that the first `n` letters of a word name, or none where
/// one of them names no axis.
pub open spec fn mask_upto(word: Seq<char>, n: int) -> Option<u8>
    decreases n,
{
    if n <= 0 {
        Some(0u8)
    } else {
        match (mask_upto(word, n - 1), axis_mask(word[n - 1])) {
            (Some(mask), Some(bit)) => Some(mask | bit),
            _ => None,
        }
    }
}

/// The bind mask that a word names.
pub open spec fn bind_mask(word: Seq<char>) -> Option<u8> {
    mask_upto(word, word.len() as int)
}

/// Reads a bind mask.
pub fn read_mask(word: &str) -> (mask: Option<u8>)
    ensures
        mask == bind_mask(word@),
{
    let letters = chars_of(word);
    let mut mode: u8 = 0;
    let mut i: usize = 0;
    while i < letters.len()
        invariant
            i <= letters@.len(),
            letters@ == word@,
            mask_upto(word@, i as int) == Some(mode),
        decreases letters@.len() - i,
    {
        let c = letters[i];
        let bit = if c == '_' {
            AxisBind::Unbound.bits()
        } else if c == 'x' {
            AxisBind::X.bits()
        } else if c == 'y' {
            AxisBind::Y.bits()
        } else if c == 'z' {
            AxisBind::Z.bits()
        } else {
            proof {
                lemma_bad_letter(word@, i as int, letters@.len() as int);
            }
            return None;
        };
        mode = mode | bit;
        i += 1;
    }
    Some(mode)
}

/// A word with a letter that names no axis names no mask.
proof fn lemma_bad_letter(word: Seq<char>, at: int, n: int)
    requires
        0 <= at < n <= word.len(),
        axis_mask(word[at]) is None,
    ensures
        mask_upto(word, n) is None,
    decreases n,
{
    if n - 1 > at {
        lemma_bad_letter(word, at, n - 1);
    }
}

/// What the command `select` does. The words behind it name the signals. A
/// run selects them one after the other, so that the last one stays selected.
pub open spec fn select_does(
    bits: Seq<Seq<char>>,
    run: bool,
    valid_in: bool,
    pc_in: Seq<Seq<char>>,
    before: &SignalManager,
    valid_out: bool,
    pc_out: Seq<Seq<char>>,
    after: &SignalManager,
) -> bool {
    let args = args_from(bits, 1);
    &&& valid_out == valid_in
    &&& pc_out == pc_in + name_completions(before.names(), args)
    &&& if valid_in && run {
        selected(before, after, chosen(before.names(), args))
    } else {
        after.same_as(before)
    }
}

/// The command `select`.
pub fn select(cmd: &str, run: bool, valid: &mut bool, pc: &mut Vec<String>, manager: &mut SignalManager)
    requires
        old(manager).wf(),
    ensures
        final(manager).wf(),
        select_does(
            words_of(cmd@),
            run,
            *old(valid),
            texts(old(pc)@),
            old(manager),
            *final(valid),
            texts(final(pc)@),
            final(manager),
        ),
{
    let bits = split_words(cmd);
    let sigs = select_signals(&bits, 1, pc, manager);
    if !*valid {
        return ;
    }
    if run {
        select_each(manager, &sigs);
    }
}

/// What the command `drawstyle` does. The word behind it names the way of
/// drawing, which is to scatter where the word is missing; a word that names
/// none makes the line invalid and offers the two ways as completions. The
/// words behind that name the signals, and a run draws them that way.
pub open spec fn drawstyle_does(
    bits: Seq<Seq<char>>,
    run: bool,
    valid_in: bool,
    pc_in: Seq<Seq<char>>,
    before: &SignalManager,
    valid_out: bool,
    pc_out: Seq<Seq<char>>,
    after: &SignalManager,
) -> bool {
    if bits.len() > 1 && style_named(bits[1]) is None {
        &&& !valid_out
        &&& pc_out == pc_in + seq!["scatter"@, "lines"@]
        &&& after.same_as(before)
    } else {
        let style = if bits.len() > 1 {
            style_named(bits[1])->0
        } else {
            Styles::Scatter
        };
        let args = args_from(bits, 2);
        &&& valid_out == valid_in
        &&& pc_out == pc_in + name_completions(before.names(), args)
        &&& if valid_in && run {
            restyled(before, after, chosen(before.names(), args), style)
        } else {
            after.same_as(before)
        }
    }
}

/// The command `drawstyle`.
pub fn drawstyle(
    cmd: &str,
    run: bool,
    valid: &mut bool,
    pc: &mut Vec<String>,
    manager: &mut SignalManager,
)
    requires
        old(manager).wf(),
    ensures
        final(manager).wf(),
        drawstyle_does(
            words_of(cmd@),
            run,
            *old(valid),
            texts(old(pc)@),
            old(manager),
            *final(valid),
            texts(final(pc)@),
            final(manager),
        ),
{
    let bits = split_words(cmd);
    let mut t = Styles::Scatter;
    if bits.len() > 1 {
        assert(texts(bits@)[1] == bits@[1]@);
        if bits[1] == String::from_str("scatter") {
            t = Styles::Scatter;
        } else if bits[1] == String::from_str("lines") {
            t = Styles::Lines;
        } else {
            *valid = false;
            let ghost before = texts(pc@);
            pc.push(String::from_str("scatter"));
            pc.push(String::from_str("lines"));
            assert(texts(pc@) =~= before + seq!["scatter"@, "lines"@]);
            return ;
        }
    }
    let sigs = select_signals(&bits, 2, pc, manager);
    if !*valid {
        return ;
    }
    if run {
        restyle(manager, &sigs, t);
    }
}

/// What the command `bind` does. The word behind it names the axes to bind,
/// which are none where the word is missing; a letter that names no axis
/// makes the line invalid and offers masks as completions. The words behind
/// that name the signals, and a run binds them, the first being the base.
pub open spec fn bind_does(
    bits: Seq<Seq<char>>,
    run: bool,
    valid_in: bool,
    pc_in: Seq<Seq<char>>,
    before: &SignalManager,
    valid_out: bool,
    pc_out: Seq<Seq<char>>,
    after: &SignalManager,
) -> bool {
    if bits.len() > 1 && bind_mask(bits[1]) is None {
        &&& !valid_out
        &&& pc_out == pc_in + seq!["x"@, "y"@, "xy"@, "xyz"@]
        &&& after.same_as(before)
    } else {
        let mode = if bits.len() > 1 {
            bind_mask(bits[1])->0
        } else {
            0u8
        };
        let args = args_from(bits, 2);
        &&& valid_out == valid_in
        &&& pc_out == pc_in + name_completions(before.names(), args)
        &&& if valid_in && run {
            bound_all(before, after, chosen(before.names(), args), mode)
        } else {
            after.same_as(before)
        }
    }
}

/// The command `bind`.
pub fn bind(cmd: &str, run: bool, valid: &mut bool, pc: &mut Vec<String>, manager: &mut SignalManager)
    requires
        old(manager).wf(),
    ensures
        final(manager).wf(),
        bind_does(
            words_of(cmd@),
            run,
            *old(valid),
            texts(old(pc)@),
            old(manager),
            *final(valid),
            texts(final(pc)@),
            final(manager),
        ),
{
    let bits = split_words(cmd);
    let mut mode: u8 = 0;
    if bits.len() > 1 {
        assert(texts(bits@)[1] == bits@[1]@);
        match read_mask(bits[1].as_str()) {
            Some(mask) => {
                mode = mask;
            },
            None => {
                *valid = false;
                let ghost before = texts(pc@);
                pc.push(String::from_str("x"));
                pc.push(String::from_str("y"));
                pc.push(String::from_str("xy"));
                pc.push(String::from_str("xyz"));
                assert(texts(pc@) =~= before + seq!["x"@, "y"@, "xy"@, "xyz"@]);
                return ;
            },
        }
    }
    let signals = select_signals(&bits, 2, pc, manager);
    if !*valid {
        return ;
    }
    if run {
        bind_each(manager, &signals, mode);
    }
}

/// What the command `free` does. The words behind it name the signals, and
/// a run gives each of them a view of its own again.
pub open spec fn free_does(
    bits: Seq<Seq<char>>,
    run: bool,
    valid_in: bool,
    pc_in: Seq<Seq<char>>,
    before: &SignalManager,
    valid_out: bool,
    pc_out: Seq<Seq<char>>,
    after: &SignalManager,
) -> bool {
    let args = args_from(bits, 1);
    &&& valid_out == valid_in
    &&& pc_out == pc_in + name_completions(before.names(), args)
    &&& if valid_in && run {
        freed_all(before, after, chosen(before.names(), args))
    } else {
        after.same_as(before)
    }
}

/// The command `free`.
pub fn free(cmd: &str, run: bool, valid: &mut bool, pc: &mut Vec<String>, manager: &mut SignalManager)
    requires
        old(manager).wf(),
    ensures
        final(manager).wf(),
        free_does(
            words_of(cmd@),
            run,
            *old(valid),
            texts(old(pc)@),
            old(manager),
            *final(valid),
            texts(final(pc)@),
            final(manager),
        ),
{
    let bits = split_words(cmd);
    let signals = select_signals(&bits, 1, pc, manager);
    if !*valid {
        return ;
    }
    if run {
        proof {
            let names = manager.names();
            let args = args_from(texts(bits@), 1);
            lemma_names(manager);
            lemma_chosen(names, args);
        }
        free_each(manager, &signals);
    }
}

/// Whether a line is long enough to be a command: it takes more than one
/// byte.
pub open spec fn is_long(line: Seq<char>) -> bool {
    vstd::utf8::encode_utf8(line).len() > 1
}

/// Whether a command line is valid: it is long enough, has a word, and,
/// where that word is `drawstyle` or `bind`, the word behind it, if there is
/// one, names a way of drawing or a bind mask.
pub open spec fn line_is_valid(long: bool, bits: Seq<Seq<char>>) -> bool {
    if !long || bits.len() == 0 {
        false
    } else if bits[0] == "ds"@ || bits[0] == "drawstyle"@ {
        !(bits.len() > 1 && style_named(bits[1]) is None)
    } else if bits[0] == "s"@ || bits[0] == "select"@ {
        true
    } else if bits[0] == "b"@ || bits[0] == "bind"@ {
        !(bits.len() > 1 && bind_mask(bits[1]) is None)
    } else {
        true
    }
}

/// What a command line does. The first word names the command, in full or
/// by its first letters `ds`, `s`, `b` and `f`. A line of less than two bytes
/// or without a word is no command. A first word that names no command leaves
/// the line valid, changes nothing, and offers the commands as completions
/// while the line is typed.
pub open spec fn parse_does(
    long: bool,
    bits: Seq<Seq<char>>,
    run: bool,
    before: &SignalManager,
    valid: bool,
    pc: Seq<Seq<char>>,
    after: &SignalManager,
) -> bool {
    if !long || bits.len() == 0 {
        &&& !valid
        &&& pc == Seq::<Seq<char>>::empty()
        &&& after.same_as(before)
    } else if bits[0] == "ds"@ || bits[0] == "drawstyle"@ {
        drawstyle_does(bits, run, true, Seq::empty(), before, valid, pc, after)
    } else if bits[0] == "s"@ || bits[0] == "select"@ {
        select_does(bits, run, true, Seq::empty(), before, valid, pc, after)
    } else if bits[0] == "b"@ || bits[0] == "bind"@ {
        bind_does(bits, run, true, Seq::empty(), before, valid, pc, after)
    } else if bits[0] == "f"@ || bits[0] == "free"@ {
        free_does(bits, run, true, Seq::empty(), before, valid, pc, after)
    } else {
        &&& valid
        &&& pc == (if run {
            Seq::<Seq<char>>::empty()
        } else {
            seq!["drawstyle"@, "select"@, "bind"@, "free"@]
        })
        &&& after.same_as(before)
    }
}

/// Reads a command line. With `run` it also does what the command says;
/// without, it only tells whether the line is valid and what could complete
/// it.
pub fn parse(line: &str, run: bool, manager: &mut SignalManager) -> (state: LineState)
    requires
        old(manager).wf(),
    ensures
        final(manager).wf(),
        parse_does(
            is_long(line@),
            words_of(line@),
            run,
            old(manager),
            state.valid,
            texts(state.possible_completions@),
            final(manager),
        ),
{
    let mut valid = false;
    let mut possible_completions: Vec<String> = Vec::new();
    assert(texts(possible_completions@) =~= Seq::<Seq<char>>::empty());
    if line.as_bytes().len() > 1 {
        let bits = split_words(line);
        if bits.len() > 0 {
            let cmd = &bits[0];
            assert(texts(bits@)[0] == cmd@);
            valid = true;
            if *cmd == String::from_str("ds") || *cmd == String::from_str("drawstyle") {
                drawstyle(line, run, &mut valid, &mut possible_completions, manager);
            } else if *cmd == String::from_str("s") || *cmd == String::from_str("select") {
                select(line, run, &mut valid, &mut possible_completions, manager);
            } else if *cmd == String::from_str("b") || *cmd == String::from_str("bind") {
                bind(line, run, &mut valid, &mut possible_completions, manager);
            } else if *cmd == String::from_str("f") || *cmd == String::from_str("free") {
                free(line, run, &mut valid, &mut possible_completions, manager);
            } else if !run {
                possible_completions.push(String::from_str("drawstyle"));
                possible_completions.push(String::from_str("select"));
                possible_completions.push(String::from_str("bind"));
                possible_completions.push(String::from_str("free"));
                assert(texts(possible_completions@) =~= seq![
                    "drawstyle"@,
                    "select"@,
                    "bind"@,
                    "free"@,
                ]);
            }
        }
    }
    LineState { valid, possible_completions }
}

/// Whether a command line is valid does not depend on the signals, and a
/// line that is only read, not run, changes nothing.
pub proof fn lemma_parse_outcome(
    long: bool,
    bits: Seq<Seq<char>>,
    run: bool,
    before: &SignalManager,
    valid: bool,
    pc: Seq<Seq<char>>,
    after: &SignalManager,
)
    requires
        parse_does(long, bits, run, before, valid, pc, after),
    ensures
        valid == line_is_valid(long, bits),
        !run ==> after.same_as(before),
{
}

} // verus!
