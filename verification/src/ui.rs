//! The command prompt: the line that is typed, the completions offered for
//! it, and the signals that its commands act on.

use vstd::prelude::*;
use crate::command_parse::{is_long, line_is_valid, lemma_parse_outcome, parse, parse_does};
use crate::editor::{after_event, filled, is_control, term_start, working_term, Editor, Key, KeyInput};
use crate::fuzzy::{rank_completions, ranked};
use crate::{signal::{Signal, SignalManager}, view::ViewData};
use crate::text::{texts, words_of};

verus! {

/// The state behind the command prompt.
pub struct UI {
    /// The signals.
    pub signal_manager: SignalManager,
    editor: Editor,
    cmdline_completions: Vec<String>,
    completion_idx: usize,
}

impl UI {
    /// The signals.
    pub closed spec fn manager(&self) -> SignalManager {
        self.signal_manager
    }

    /// The line editor.
    pub closed spec fn editor(&self) -> Editor {
        self.editor
    }

    /// The completions offered, the nearest first.
    pub closed spec fn completions(&self) -> Seq<Seq<char>> {
        texts(self.cmdline_completions@)
    }

    /// The place of the completion that is shown.
    pub closed spec fn shown(&self) -> int {
        self.completion_idx as int
    }

    /// The signals and the editor are in order, and the completion shown is
    /// one of those offered.
    pub open spec fn wf(&self) -> bool {
        &&& self.manager().wf()
        &&& self.editor().wf()
        &&& self.completions().len() > 0 ==> 0 <= self.shown() < self.completions().len()
    }

    /// The text behind the prompt.
    pub open spec fn typed(&self) -> Seq<char> {
        self.editor().text().subrange(1, self.editor().text().len() as int)
    }

    /// The prompt as it starts: no signals, an empty line and no completions.
    pub fn new() -> (ui: UI)
        ensures
            ui.wf(),
            ui.manager().signals() == Seq::<Signal>::empty(),
            ui.manager().views() == Seq::<ViewData>::empty(),
            ui.manager().selection() is None,
            ui.manager().points_added() == 0,
            ui.editor().text() == seq!['~'],
            ui.editor().at() == 1,
            ui.completions() == Seq::<Seq<char>>::empty(),
            ui.shown() == 0,
    {
        let ui = UI {
            signal_manager: SignalManager::new(),
            editor: Editor::new(),
            cmdline_completions: Vec::new(),
            completion_idx: 0,
        };
        assert(ui.completions() =~= Seq::<Seq<char>>::empty());
        ui
    }

    /// The completions for the line as it stands: what the line's command
    /// offers, the nearest to the term under the cursor first.
    pub open spec fn offered(&self, after: &UI) -> bool {
        &&& after.editor() == self.editor()
        &&& after.manager().same_as(&self.manager())
        &&& after.shown() == 0
        &&& exists|pc: Seq<Seq<char>>|
            {
                &&& parse_does(
                    is_long(self.typed()),
                    words_of(self.typed()),
                    false,
                    &self.manager(),
                    line_is_valid(is_long(self.typed()), words_of(self.typed())),
                    pc,
                    &self.manager(),
                )
                &&& after.completions() == ranked(
                    pc,
                    working_term(self.editor().text(), self.editor().at()),
                )
            }
    }

    /// Works out the completions anew after the line changed.
    pub fn update_editor(&mut self)
        requires
            old(self).wf(),
        ensures
            final(self).wf(),
            old(self).offered(final(self)),
    {
        let line = self.editor.get_buffer();
        let ghost before = self.signal_manager;
        let rslt = parse(line.as_str(), false, &mut self.signal_manager);
        proof {
            lemma_parse_outcome(
                is_long(line@),
                words_of(line@),
                false,
                &before,
                rslt.valid,
                texts(rslt.possible_completions@),
                &self.signal_manager,
            );
        }
        let current_term = self.editor.get_working_term();
        let ghost pc = texts(rslt.possible_completions@);
        self.cmdline_completions = rank_completions(current_term.as_str(), rslt.possible_completions);
        self.completion_idx = 0;
        proof {
            vstd::seq_lib::assert_seqs_equal!(self.signal_manager.signals(), before.signals());
            crate::fuzzy::lemma_ranked(pc, current_term@, pc.len() as int);
            assert(parse_does(
                is_long(old(self).typed()),
                words_of(old(self).typed()),
                false,
                &old(self).manager(),
                line_is_valid(is_long(old(self).typed()), words_of(old(self).typed())),
                pc,
                &old(self).manager(),
            )) by {
                lemma_read_only(
                    is_long(line@),
                    words_of(line@),
                    &before,
                    rslt.valid,
                    pc,
                    &self.signal_manager,
                );
            }
        }
    }

    /// What typing a character does. Tabulator and return are left to the
    /// keyboard events and change nothing. Any other character goes to the
    /// editor, which ignores a control character, and the completions are worked
    /// out anew for the line as it then stands.
    pub open spec fn types(&self, after: &UI, c: char) -> bool {
        if c == '\t' || c == '\r' {
            &&& after.editor() == self.editor()
            &&& after.manager() == self.manager()
            &&& after.completions() == self.completions()
            &&& after.shown() == self.shown()
        } else {
            exists|mid: UI|
                {
                    &&& mid.manager() == self.manager()
                    &&& mid.editor().text() == (if is_control(c) {
                        self.editor().text()
                    } else {
                        self.editor().text().insert(self.editor().at(), c)
                    })
                    &&& mid.editor().at() == (if is_control(c) {
                        self.editor().at()
                    } else {
                        self.editor().at() + 1
                    })
                    &&& #[trigger] mid.offered(after)
                }
        }
    }

    /// Types a character.
    pub fn send_key(&mut self, c: char)
        requires
            old(self).wf(),
        ensures
            final(self).wf(),
            old(self).types(final(self), c),
    {
        if c != '\t' && c != '\r' {
            self.editor.send_key(c);
            let ghost mid = *self;
            self.update_editor();
            assert(mid.offered(self));
        }
    }

    /// The line editor.
    pub fn get_editor(&self) -> (editor: &Editor)
        ensures
            *editor == self.editor(),
    {
        &self.editor
    }

    /// The completions offered, the nearest first.
    pub fn get_completions(&self) -> (completions: &Vec<String>)
        ensures
            texts(completions@) == self.completions(),
    {
        &self.cmdline_completions
    }

    /// The completion that is shown, if any is offered.
    pub fn get_completion(&self) -> (completion: Option<&String>)
        requires
            self.wf(),
        ensures
            completion is Some <==> self.completions().len() > 0,
            completion is Some ==> completion->0@ == self.completions()[self.shown()],
    {
        if self.cmdline_completions.len() > 0 {
            return Some(&self.cmdline_completions[self.completion_idx]);
        }
        return None;
    }

    /// What the prompt does with a key that went down, before the editor
    /// sees it. Shift and tabulator show the next completion, tabulator alone
    /// puts the completion shown in place of the term under the cursor, and
    /// return runs the line, which is cleared where it was valid.
    pub open spec fn reacts(&self, after: &UI, input: KeyInput) -> bool {
        if input.key == Some(Key::Tab) && input.pressed && input.shift && self.completions().len()
            > 0 {
            &&& after.editor() == self.editor()
            &&& after.manager() == self.manager()
            &&& after.completions() == self.completions()
            &&& after.shown() == (self.shown() + 1) % (self.completions().len() as int)
        } else if input.key == Some(Key::Tab) && input.pressed && self.completions().len() > 0 {
            &&& after.manager() == self.manager()
            &&& after.completions() == self.completions()
            &&& after.shown() == self.shown()
            &&& after.editor().text() == filled(
                self.editor().text(),
                self.editor().at(),
                self.completions()[self.shown()],
            )
            &&& after.editor().at() == term_start(self.editor().text(), self.editor().at())
                + self.completions()[self.shown()].len()
        } else if input.key == Some(Key::Return) && input.pressed {
            let valid = line_is_valid(is_long(self.typed()), words_of(self.typed()));
            &&& exists|pc: Seq<Seq<char>>|
                parse_does(
                    is_long(self.typed()),
                    words_of(self.typed()),
                    true,
                    &self.manager(),
                    valid,
                    pc,
                    &after.manager(),
                )
            &&& valid ==> after.editor().text() == seq!['~'] && after.editor().at() == 1
                && after.completions().len() == 0 && after.shown() == 0
            &&& !valid ==> after.editor() == self.editor() && after.completions()
                == self.completions() && after.shown() == self.shown()
        } else {
            &&& after.editor() == self.editor()
            &&& after.manager() == self.manager()
            &&& after.completions() == self.completions()
            &&& after.shown() == self.shown()
        }
    }

    /// Reacts to an event of the keyboard: first the prompt, then the editor.
    pub fn send_event(&mut self, input: &KeyInput)
        requires
            old(self).wf(),
        ensures
            final(self).wf(),
            exists|mid: UI|
                {
                    &&& old(self).reacts(&mid, *input)
                    &&& final(self).manager() == mid.manager()
                    &&& final(self).completions() == mid.completions()
                    &&& final(self).shown() == mid.shown()
                    &&& (final(self).editor().text(), final(self).editor().at()) == after_event(
                        mid.editor().text(),
                        mid.editor().at(),
                        *input,
                    )
                },
    {
        if let Some(k) = input.key {
            if input.pressed {
                match k {
                    Key::Tab => {
                        if input.shift && self.cmdline_completions.len() > 0 {
                            let n = self.cmdline_completions.len();
                            let ghost shown = self.completion_idx as int;
                            self.completion_idx = if self.completion_idx + 1 == n {
                                0
                            } else {
                                self.completion_idx + 1
                            };
                            assert(self.completion_idx as int == (shown + 1) % (n as int)) by {
                                if shown + 1 == n {
                                    assert((shown + 1) % (n as int) == 0) by (nonlinear_arith)
                                        requires
                                            shown + 1 == n,
                                            n > 0,
                                    ;
                                } else {
                                    assert((shown + 1) % (n as int) == shown + 1)
                                        by (nonlinear_arith)
                                        requires
                                            0 <= shown + 1 < n,
                                    ;
                                }
                            }
                        } else {
                            let picked = match self.get_completion() {
                                Some(c) => Some(c.clone()),
                                None => None,
                            };
                            if let Some(picked) = picked {
                                self.editor.autofill(picked.as_str())
                            }
                        }
                    },
                    Key::Return => {
                        let line = self.editor.get_buffer();
                        let ghost before = self.signal_manager;
                        let rslt = parse(line.as_str(), true, &mut self.signal_manager);
                        proof {
                            lemma_parse_outcome(
                                is_long(line@),
                                words_of(line@),
                                true,
                                &before,
                                rslt.valid,
                                texts(rslt.possible_completions@),
                                &self.signal_manager,
                            );
                        }
                        if rslt.valid {
                            self.editor.clear();
                            self.cmdline_completions.clear();
                            self.completion_idx = 0;
                        }
                        assert(parse_does(
                            is_long(old(self).typed()),
                            words_of(old(self).typed()),
                            true,
                            &old(self).manager(),
                            line_is_valid(is_long(old(self).typed()), words_of(old(self).typed())),
                            texts(rslt.possible_completions@),
                            &self.manager(),
                        ));
                    },
                    _ => (),
                }
            }
        }
        let ghost mid = *self;
        assert(old(self).reacts(&mid, *input));
        self.editor.send_event(input);
    }
}

/// A line that is only read leaves the signals as they are, so what it
/// offers can be stated of the signals before the reading alone.
proof fn lemma_read_only(
    long: bool,
    bits: Seq<Seq<char>>,
    before: &SignalManager,
    valid: bool,
    pc: Seq<Seq<char>>,
    after: &SignalManager,
)
    requires
        parse_does(long, bits, false, before, valid, pc, after),
    ensures
        parse_does(long, bits, false, before, line_is_valid(long, bits), pc, before),
{
}

} // verus!
