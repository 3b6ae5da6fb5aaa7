use scope::axes::MsgPoint;
use scope::classify::handle_caps;
use scope::command_parse::{
    bind, drawstyle, free, is_among, is_given, parse, read_mask, select, select_signals,
};
use scope::drawstyles::Styles;
use scope::editor::{is_delim, Editor, Key, KeyInput};
use scope::fuzzy::rank_completions;
use scope::signal::SignalManager;
use scope::text::{char_is_space, chars_of, split_words, text_of};
use scope::ui::UI;

fn point(name: &str, value: i64) -> MsgPoint {
    handle_caps(String::from(name), &vec![Some(value)], Some(0), 0)
}

fn name(text: &str) -> String {
    String::from(text)
}

fn names(texts: &[&str]) -> Vec<String> {
    texts.iter().map(|t| String::from(*t)).collect()
}

fn three_signals() -> SignalManager {
    let mut man = SignalManager::new();
    man.add_point(point("alpha", 1));
    man.add_point(point("beta", 2));
    man.add_point(point("gamma", 3));
    man
}

fn press(key: Key) -> KeyInput {
    KeyInput { key: Some(key), pressed: true, ctrl: false, shift: false }
}

fn typed(text: &str) -> Editor {
    let mut editor = Editor::new();
    for c in text.chars() {
        editor.send_key(c);
    }
    editor
}

fn cursor(editor: &Editor) -> usize {
    editor.get_buffer_parts().0.chars().count() + 1
}

fn style_of(man: &SignalManager, text: &str) -> Styles {
    man.get_signal(&name(text)).unwrap().style
}

fn view_of(man: &SignalManager, text: &str) -> (usize, u8) {
    let view = man.get_signal(&name(text)).unwrap().view;
    (view.data, view.mode)
}

#[test]
fn words_are_parted_by_white_space() {
    assert_eq!(split_words("ds lines a  b"), names(&["ds", "lines", "a", "b"]));
    assert_eq!(split_words("  lead\tand\u{a0}trail \n"), names(&["lead", "and", "trail"]));
    assert_eq!(split_words(""), Vec::<String>::new());
    assert_eq!(split_words(" \t\n"), Vec::<String>::new());
    assert_eq!(split_words("one"), names(&["one"]));
}

#[test]
fn white_space_is_what_std_calls_white_space() {
    for code in 0..=0x10ffffu32 {
        if let Some(c) = char::from_u32(code) {
            assert_eq!(char_is_space(c), c.is_whitespace(), "{:x}", code);
        }
    }
}

#[test]
fn words_are_what_std_splits() {
    for line in ["", " ", "a", " a ", "ds lines  alpha\tbeta\n", "\u{3000}x\u{2003}y\u{85}", "! a", "a\u{200b}b c"] {
        let expected: Vec<String> = line.split_whitespace().map(String::from).collect();
        assert_eq!(split_words(line), expected, "{:?}", line);
    }
}

#[test]
fn texts_come_apart_and_together() {
    assert_eq!(chars_of("a\u{e9}b"), vec!['a', '\u{e9}', 'b']);
    assert_eq!(text_of(&vec!['a', '\u{e9}', 'b', 'c'], 1, 3), "\u{e9}b");
    assert_eq!(text_of(&vec!['a'], 1, 1), "");
}

#[test]
fn new_editor_holds_the_prompt() {
    let editor = Editor::new();
    assert_eq!(editor.get_buffer(), "");
    assert_eq!(editor.get_buffer_parts(), (name(""), name("~"), name("")));
    assert_eq!(editor.get_working_term(), "");
}

#[test]
fn typing_puts_characters_behind_the_cursor() {
    let mut editor = typed("ab");
    assert_eq!(editor.get_buffer(), "ab");
    assert_eq!(editor.get_buffer_parts(), (name("~a"), name("b"), name("")));
    editor.send_event(&press(Key::Left));
    editor.send_key('x');
    assert_eq!(editor.get_buffer(), "axb");
    assert_eq!(editor.get_buffer_parts(), (name("~a"), name("x"), name("b")));
}

#[test]
fn control_characters_are_not_typed() {
    let mut editor = typed("a");
    for c in ['\u{0}', '\t', '\r', '\n', '\u{1b}', '\u{1f}', '\u{7f}'] {
        editor.send_key(c);
    }
    assert_eq!(editor.get_buffer(), "a");
    editor.send_key(' ');
    editor.send_key('\u{80}');
    assert_eq!(editor.get_buffer(), "a \u{80}");
}

#[test]
fn arrows_stay_within_the_text() {
    let mut editor = typed("ab");
    editor.send_event(&press(Key::Right));
    assert_eq!(cursor(&editor), 3);
    editor.send_event(&press(Key::Left));
    editor.send_event(&press(Key::Left));
    editor.send_event(&press(Key::Left));
    assert_eq!(cursor(&editor), 1);
    assert_eq!(editor.get_buffer_parts(), (name(""), name("~"), name("ab")));
    editor.send_event(&press(Key::Right));
    assert_eq!(cursor(&editor), 2);
}

#[test]
fn backspace_removes_the_character_under_the_cursor() {
    let mut editor = typed("abc");
    editor.send_event(&press(Key::Back));
    assert_eq!(editor.get_buffer(), "ab");
    assert_eq!(cursor(&editor), 3);
    editor.send_event(&press(Key::Left));
    editor.send_event(&press(Key::Delete));
    assert_eq!(editor.get_buffer(), "b");
    assert_eq!(cursor(&editor), 2);
    editor.send_event(&press(Key::Back));
    assert_eq!(editor.get_buffer(), "");
    editor.send_event(&press(Key::Back));
    assert_eq!(editor.get_buffer(), "");
    assert_eq!(editor.get_buffer_parts(), (name(""), name("~"), name("")));
}

#[test]
fn escape_and_control_c_clear_the_line() {
    let mut editor = typed("abc");
    editor.send_event(&press(Key::C));
    assert_eq!(editor.get_buffer(), "abc");
    editor.send_event(&KeyInput { key: Some(Key::C), pressed: true, ctrl: true, shift: false });
    assert_eq!(editor.get_buffer(), "");
    let mut editor = typed("abc");
    editor.send_event(&press(Key::Escape));
    assert_eq!(editor.get_buffer(), "");
    assert_eq!(cursor(&editor), 1);
    let mut editor = typed("abc");
    editor.clear();
    assert_eq!(editor.get_buffer(), "");
}

#[test]
fn released_and_unnamed_keys_do_nothing() {
    let mut editor = typed("abc");
    editor.send_event(&KeyInput { key: Some(Key::Escape), pressed: false, ctrl: false, shift: false });
    editor.send_event(&KeyInput { key: None, pressed: true, ctrl: true, shift: false });
    editor.send_event(&press(Key::Other));
    editor.send_event(&press(Key::Tab));
    editor.send_event(&press(Key::Return));
    assert_eq!(editor.get_buffer(), "abc");
    assert_eq!(cursor(&editor), 4);
}

#[test]
fn the_working_term_is_the_word_under_the_cursor() {
    let mut editor = typed("ds lines alp");
    assert_eq!(editor.get_working_term(), "alp");
    for _ in 0..5 {
        editor.send_event(&press(Key::Left));
    }
    assert_eq!(editor.get_working_term(), "lines");
    let editor = typed("ds ");
    assert_eq!(editor.get_working_term(), "");
    let editor = typed("ds");
    assert_eq!(editor.get_working_term(), "ds");
    assert!(is_delim(' '));
    assert!(!is_delim('\t'));
}

#[test]
fn autofill_replaces_the_working_term() {
    let mut editor = typed("ds li alpha");
    for _ in 0..7 {
        editor.send_event(&press(Key::Left));
    }
    assert_eq!(editor.get_working_term(), "li");
    editor.autofill("lines");
    assert_eq!(editor.get_buffer(), "ds lines alpha");
    assert_eq!(editor.get_buffer_parts(), (name("~ds line"), name("s"), name(" alpha")));
    let mut editor = typed("d");
    editor.autofill("drawstyle");
    assert_eq!(editor.get_buffer(), "drawstyle");
    assert_eq!(cursor(&editor), 10);
    let mut editor = typed("ds ");
    editor.autofill("scatter");
    assert_eq!(editor.get_buffer(), "ds scatter");
    let mut editor = Editor::new();
    editor.autofill("");
    assert_eq!(editor.get_buffer(), "");
    assert_eq!(cursor(&editor), 1);
}

#[test]
fn named_signals_are_selected_in_the_order_given() {
    let man = three_signals();
    let mut pc = names(&["kept"]);
    let bits = names(&["ds", "lines", "gamma", "alpha", "nobody", "gamma"]);
    assert_eq!(select_signals(&bits, 2, &mut pc, &man), names(&["gamma", "alpha"]));
    assert_eq!(pc, names(&["kept", "alpha", "beta", "gamma"]));
}

#[test]
fn no_names_select_every_signal() {
    let man = three_signals();
    let mut pc = Vec::new();
    assert_eq!(select_signals(&names(&["s"]), 1, &mut pc, &man), names(&["alpha", "beta", "gamma"]));
    assert!(pc.is_empty());
    assert_eq!(select_signals(&names(&["s"]), 5, &mut pc, &man), names(&["alpha", "beta", "gamma"]));
}

#[test]
fn a_bang_selects_all_but_the_names() {
    let man = three_signals();
    let mut pc = Vec::new();
    assert_eq!(select_signals(&names(&["s", "!", "beta"]), 1, &mut pc, &man), names(&["alpha", "gamma"]));
    assert_eq!(pc, names(&["alpha", "beta", "gamma"]));
    assert!(is_given(&names(&["s", "!", "beta"]), 1, &name("beta")));
    assert!(!is_given(&names(&["s", "!", "beta"]), 1, &name("s")));
    assert!(!is_given(&names(&["s"]), 3, &name("s")));
    assert!(is_among(&names(&["s", "t"]), &name("t")));
    assert!(!is_among(&names(&["s", "t"]), &name("u")));
}

#[test]
fn drawstyle_sets_the_style_of_the_named() {
    let mut man = three_signals();
    let state = parse("ds scatter alpha gamma", true, &mut man);
    assert!(state.valid);
    assert_eq!(state.possible_completions, names(&["alpha", "beta", "gamma"]));
    assert_eq!(style_of(&man, "alpha"), Styles::Scatter);
    assert_eq!(style_of(&man, "beta"), Styles::Lines);
    assert_eq!(style_of(&man, "gamma"), Styles::Scatter);
    let state = parse("drawstyle lines", true, &mut man);
    assert!(state.valid);
    assert!(state.possible_completions.is_empty());
    assert_eq!(style_of(&man, "alpha"), Styles::Lines);
    assert_eq!(style_of(&man, "gamma"), Styles::Lines);
    let state = parse("ds", true, &mut man);
    assert!(state.valid);
    assert_eq!(style_of(&man, "beta"), Styles::Scatter);
}

#[test]
fn drawstyle_is_only_read_without_a_run() {
    let mut man = three_signals();
    let state = parse("ds scatter alpha", false, &mut man);
    assert!(state.valid);
    assert_eq!(state.possible_completions, names(&["alpha", "beta", "gamma"]));
    assert_eq!(style_of(&man, "alpha"), Styles::Lines);
}

#[test]
fn an_unknown_style_is_invalid() {
    let mut man = three_signals();
    let state = parse("ds dots alpha", true, &mut man);
    assert!(!state.valid);
    assert_eq!(state.possible_completions, names(&["scatter", "lines"]));
    assert_eq!(style_of(&man, "alpha"), Styles::Lines);
    let mut valid = true;
    let mut pc = names(&["kept"]);
    drawstyle("ds dots", true, &mut valid, &mut pc, &mut man);
    assert!(!valid);
    assert_eq!(pc, names(&["kept", "scatter", "lines"]));
}

#[test]
fn a_command_that_came_invalid_does_nothing() {
    let mut man = three_signals();
    let mut valid = false;
    let mut pc = Vec::new();
    drawstyle("ds scatter alpha", true, &mut valid, &mut pc, &mut man);
    select("s alpha", true, &mut valid, &mut pc, &mut man);
    bind("b xy alpha beta", true, &mut valid, &mut pc, &mut man);
    free("f alpha", true, &mut valid, &mut pc, &mut man);
    assert!(!valid);
    assert_eq!(style_of(&man, "alpha"), Styles::Lines);
    assert_eq!(*man.get_selection(), None);
    assert_eq!(view_of(&man, "beta"), (1, 0));
    assert_eq!(view_of(&man, "alpha"), (0, 0));
    assert_eq!(pc.len(), 12);
}

#[test]
fn select_keeps_the_last_of_the_named() {
    let mut man = three_signals();
    let state = parse("s beta", true, &mut man);
    assert!(state.valid);
    assert_eq!(*man.get_selection(), Some(name("beta")));
    parse("select gamma alpha", true, &mut man);
    assert_eq!(*man.get_selection(), Some(name("alpha")));
    parse("s nobody", true, &mut man);
    assert_eq!(*man.get_selection(), Some(name("alpha")));
    parse("s", true, &mut man);
    assert_eq!(*man.get_selection(), Some(name("alpha")));
    parse("s ", true, &mut man);
    assert_eq!(*man.get_selection(), Some(name("gamma")));
    parse("s ! gamma", false, &mut man);
    assert_eq!(*man.get_selection(), Some(name("gamma")));
    parse("s ! gamma", true, &mut man);
    assert_eq!(*man.get_selection(), Some(name("beta")));
}

#[test]
fn masks_are_read_letter_by_letter() {
    assert_eq!(read_mask(""), Some(0));
    assert_eq!(read_mask("_"), Some(0));
    assert_eq!(read_mask("x"), Some(2));
    assert_eq!(read_mask("y"), Some(4));
    assert_eq!(read_mask("z"), Some(8));
    assert_eq!(read_mask("xy"), Some(6));
    assert_eq!(read_mask("zyx_x"), Some(14));
    assert_eq!(read_mask("xq"), None);
    assert_eq!(read_mask("X"), None);
}

#[test]
fn bind_gives_the_others_the_view_of_the_first_named() {
    let mut man = three_signals();
    let state = parse("b xy gamma alpha", true, &mut man);
    assert!(state.valid);
    assert_eq!(state.possible_completions, names(&["alpha", "beta", "gamma"]));
    assert_eq!(view_of(&man, "alpha"), (2, 6));
    assert_eq!(view_of(&man, "gamma"), (2, 6));
    assert_eq!(view_of(&man, "beta"), (1, 0));
    parse("b x beta nobody gamma", true, &mut man);
    assert_eq!(view_of(&man, "beta"), (1, 2));
    assert_eq!(view_of(&man, "gamma"), (1, 2));
    assert_eq!(view_of(&man, "alpha"), (2, 6));
}

#[test]
fn bind_of_all_takes_the_first_signal_as_base() {
    let mut man = three_signals();
    parse("bind y", true, &mut man);
    assert_eq!(view_of(&man, "alpha"), (0, 4));
    assert_eq!(view_of(&man, "beta"), (0, 4));
    assert_eq!(view_of(&man, "gamma"), (0, 4));
}

#[test]
fn bind_of_one_signal_changes_nothing() {
    let mut man = three_signals();
    parse("b x beta", true, &mut man);
    assert_eq!(view_of(&man, "beta"), (1, 0));
    parse("b x alpha beta", false, &mut man);
    assert_eq!(view_of(&man, "beta"), (1, 0));
}

#[test]
fn an_unknown_axis_is_invalid() {
    let mut man = three_signals();
    let state = parse("b xw alpha beta", true, &mut man);
    assert!(!state.valid);
    assert_eq!(state.possible_completions, names(&["x", "y", "xy", "xyz"]));
    assert_eq!(view_of(&man, "beta"), (1, 0));
}

#[test]
fn free_gives_each_named_a_fresh_view() {
    let mut man = three_signals();
    parse("b xy", true, &mut man);
    let state = parse("f gamma beta", true, &mut man);
    assert!(state.valid);
    assert_eq!(view_of(&man, "alpha"), (0, 6));
    assert_eq!(view_of(&man, "gamma"), (3, 0));
    assert_eq!(view_of(&man, "beta"), (4, 0));
    assert_eq!(man.get_view_data(3).unwrap().id, "gamma");
    assert_eq!(man.get_view_data(4).unwrap().id, "beta");
    assert!(man.get_view_data(5).is_none());
    parse("free nobody", true, &mut man);
    assert!(man.get_view_data(5).is_none());
}

#[test]
fn unknown_commands_offer_the_commands() {
    let mut man = three_signals();
    let state = parse("dr", false, &mut man);
    assert!(state.valid);
    assert_eq!(state.possible_completions, names(&["drawstyle", "select", "bind", "free"]));
    let state = parse("dr", true, &mut man);
    assert!(state.valid);
    assert!(state.possible_completions.is_empty());
}

#[test]
fn short_and_empty_lines_are_no_commands() {
    let mut man = three_signals();
    for line in ["", "s", " ", "   ", "\t\n"] {
        let state = parse(line, true, &mut man);
        assert!(!state.valid, "{:?}", line);
        assert!(state.possible_completions.is_empty());
    }
    assert_eq!(*man.get_selection(), None);
    let state = parse("s ", true, &mut man);
    assert!(state.valid);
    assert_eq!(*man.get_selection(), Some(name("gamma")));
}

#[test]
fn completions_are_ranked_by_distance() {
    assert_eq!(rank_completions("BOR", names(&["FOO", "bar", "BAR", "BOR"])), names(&["BOR", "BAR", "FOO", "bar"]));
    assert_eq!(rank_completions("hannah", names(&["hanna", "hannha", "hannah"])), names(&["hannah", "hanna", "hannha"]));
    let list = names(&["drawstyle", "select", "bind", "free"]);
    assert_eq!(rank_completions("sel", list), names(&["select", "free", "bind", "drawstyle"]));
    let list = names(&["drawstyle", "select", "bind", "free"]);
    assert_eq!(rank_completions("fre", list), names(&["free", "bind", "select", "drawstyle"]));
}

#[test]
fn equally_near_completions_keep_their_order() {
    assert_eq!(rank_completions("", names(&["bb", "aa", "c", "dd"])), names(&["c", "bb", "aa", "dd"]));
    assert_eq!(rank_completions("x", names(&["b", "a", "x", "c"])), names(&["x", "b", "a", "c"]));
    assert_eq!(rank_completions("x", Vec::new()), Vec::<String>::new());
}

#[test]
fn a_new_prompt_is_empty() {
    let mut ui = UI::new();
    assert_eq!(ui.signal_manager.len(), 0);
    assert!(ui.signal_manager.get_view_data(0).is_none());
    assert_eq!(*ui.signal_manager.get_selection(), None);
    assert_eq!(ui.signal_manager.point_count, 0);
    assert_eq!(ui.get_editor().get_buffer(), "");
    assert_eq!(ui.get_editor().get_buffer_parts(), (name(""), name("~"), name("")));
    assert!(ui.get_completions().is_empty());
    assert!(ui.get_completion().is_none());
}

#[test]
fn typing_offers_completions() {
    let mut ui = UI::new();
    assert!(ui.get_completion().is_none());
    ui.send_key('d');
    assert_eq!(ui.get_editor().get_buffer(), "d");
    assert!(ui.get_completions().is_empty());
    ui.send_key('r');
    assert_eq!(*ui.get_completions(), names(&["free", "bind", "select", "drawstyle"]));
    assert_eq!(ui.get_completion(), Some(&name("free")));
    ui.send_key('\t');
    ui.send_key('\r');
    assert_eq!(ui.get_editor().get_buffer(), "dr");
}

#[test]
fn tabulator_fills_in_the_completion() {
    let mut ui = UI::new();
    ui.send_key('f');
    ui.send_key('r');
    assert_eq!(ui.get_completion(), Some(&name("free")));
    ui.send_event(&press(Key::Tab));
    assert_eq!(ui.get_editor().get_buffer(), "free");
    assert_eq!(ui.get_editor().get_buffer_parts(), (name("~fre"), name("e"), name("")));
}

#[test]
fn shift_and_tabulator_show_the_next_completion() {
    let mut ui = UI::new();
    ui.send_key('d');
    ui.send_key('r');
    let shift_tab = KeyInput { key: Some(Key::Tab), pressed: true, ctrl: false, shift: true };
    assert_eq!(ui.get_completion(), Some(&name("free")));
    ui.send_event(&shift_tab);
    assert_eq!(ui.get_completion(), Some(&name("bind")));
    ui.send_event(&shift_tab);
    ui.send_event(&shift_tab);
    assert_eq!(ui.get_completion(), Some(&name("drawstyle")));
    ui.send_event(&shift_tab);
    assert_eq!(ui.get_completion(), Some(&name("free")));
    assert_eq!(ui.get_editor().get_buffer(), "dr");
    ui.send_event(&shift_tab);
    ui.send_key('a');
    assert_eq!(*ui.get_completions(), names(&["free", "bind", "drawstyle", "select"]));
    assert_eq!(ui.get_completion(), Some(&name("free")));
}

#[test]
fn return_runs_a_valid_line_and_clears_it() {
    let mut ui = UI::new();
    ui.signal_manager.add_point(point("alpha", 1));
    ui.signal_manager.add_point(point("beta", 2));
    for c in "ds scatter beta".chars() {
        ui.send_key(c);
    }
    assert_eq!(*ui.get_completions(), names(&["beta", "alpha"]));
    ui.send_event(&press(Key::Return));
    assert_eq!(style_of(&ui.signal_manager, "beta"), Styles::Scatter);
    assert_eq!(style_of(&ui.signal_manager, "alpha"), Styles::Lines);
    assert_eq!(ui.get_editor().get_buffer(), "");
    assert!(ui.get_completions().is_empty());
}

#[test]
fn return_keeps_an_invalid_line() {
    let mut ui = UI::new();
    ui.signal_manager.add_point(point("alpha", 1));
    for c in "ds dots".chars() {
        ui.send_key(c);
    }
    assert_eq!(*ui.get_completions(), names(&["lines", "scatter"]));
    ui.send_event(&press(Key::Return));
    assert_eq!(ui.get_editor().get_buffer(), "ds dots");
    assert_eq!(*ui.get_completions(), names(&["lines", "scatter"]));
    ui.send_event(&press(Key::Escape));
    assert_eq!(ui.get_editor().get_buffer(), "");
    ui.send_event(&KeyInput { key: Some(Key::Return), pressed: false, ctrl: false, shift: false });
    assert_eq!(*ui.get_completions(), names(&["lines", "scatter"]));
}
