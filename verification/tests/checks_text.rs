use mutop::app::{App, Key};
use mutop::display::{name_can_be_shown, popup_area, query_can_be_split};
use mutop::process::{can_sort, ProcInfo, SortBy};
use mutop::text::{
    boundary_at, char_index_at, chars_of, contains_chars, lex_less, push_str, to_lowercase, utf8_len, utf8_width,
};

fn proc(pid: u32, name: &str, cmd: &str, cpu: f32) -> ProcInfo {
    ProcInfo {
        pid,
        name: name.to_string(),
        cmd: cmd.to_string(),
        cpu_bits: cpu.to_bits(),
        memory: 0,
        status: String::new(),
    }
}

#[test]
fn utf8_widths_and_lengths() {
    for c in ['a', 'é', '€', '𝄞'] {
        assert_eq!(utf8_width(c), c.len_utf8());
    }
    let s = "aé€𝄞";
    assert_eq!(utf8_len(&chars_of(s)), s.len());
    assert_eq!(chars_of(s), s.chars().collect::<Vec<_>>());
}

#[test]
fn boundaries_match_std() {
    let s = "aé€𝄞z";
    let cs = chars_of(s);
    for idx in 0..=s.len() + 2 {
        assert_eq!(boundary_at(&cs, idx), s.is_char_boundary(idx), "idx {}", idx);
    }
    assert_eq!(char_index_at(&cs, 0), 0);
    assert_eq!(char_index_at(&cs, 3), 2);
    assert_eq!(char_index_at(&cs, 10), 4);
    assert_eq!(char_index_at(&cs, s.len()), 5);
}

#[test]
fn substring_and_order() {
    let hay = chars_of("hello world");
    assert!(contains_chars(&hay, &chars_of("lo w")));
    assert!(contains_chars(&hay, &chars_of("")));
    assert!(!contains_chars(&hay, &chars_of("worlds")));
    assert!(lex_less(&chars_of("abc"), &chars_of("abd")));
    assert!(lex_less(&chars_of("ab"), &chars_of("abc")));
    assert!(!lex_less(&chars_of("abc"), &chars_of("abc")));
    assert!(lex_less(&chars_of("Z"), &chars_of("a")));
    assert!(lex_less(&chars_of("z"), &chars_of("é")));
}

#[test]
fn lowercase_and_append() {
    assert_eq!(to_lowercase("MiXeD ÉCOLE"), "mixed école");
    let mut s = String::from("ab");
    push_str(&mut s, "cé");
    assert_eq!(s, "abcé");
}

#[test]
fn sorting_by_cpu_needs_numbers() {
    let with_nan = vec![proc(1, "a", "", 1.0), proc(2, "b", "", f32::NAN)];
    assert!(!can_sort(&with_nan, SortBy::Cpu));
    assert!(can_sort(&with_nan, SortBy::Mem));
    assert!(can_sort(&vec![proc(2, "b", "", f32::NAN)], SortBy::Cpu));
    assert!(can_sort(&vec![proc(1, "a", "", 1.0), proc(2, "b", "", 2.0)], SortBy::Cpu));
}

#[test]
fn keys_that_would_panic_are_refused() {
    let mut app = App::new(Vec::new(), 0);
    assert!(app.accepts_key(Key::Char('t'), true));
    app.start_search();
    assert!(app.accepts_key(Key::Char('x'), true));
    app.search_char('é');
    // The cursor moved one byte, into the middle of 'é'.
    assert_eq!(app.search_cursor(), 1);
    assert!(!app.accepts_key(Key::Char('x'), true));
    assert!(!query_can_be_split(&app));
    assert!(app.accepts_key(Key::Backspace, true));
    assert!(app.accepts_key(Key::Left, true));
    assert!(app.accepts_key(Key::Char('x'), false));
    app.search_right();
    assert_eq!(app.search_cursor(), 2);
    assert!(app.accepts_key(Key::Char('x'), true));
    assert!(!app.accepts_key(Key::Backspace, true));
    assert!(query_can_be_split(&app));
}

#[test]
fn cycling_to_cpu_with_a_nan_is_refused() {
    let mut app = App::new(Vec::new(), 0);
    app.cycle_sort();
    assert_eq!(app.sort_by(), SortBy::Mem);
    app.refresh(vec![proc(1, "a", "", f32::NAN), proc(2, "b", "", 1.0)], 0);
    app.cycle_sort();
    assert!(app.accepts_key(Key::Char('t'), true));
    app.cycle_sort();
    assert_eq!(app.sort_by(), SortBy::Name);
    // The next column is CPU, and a NaN usage cannot be ordered.
    assert!(!app.accepts_key(Key::Char('t'), true));
}

#[test]
fn long_names_cut_inside_a_character_are_refused() {
    let ok = format!("{}é{}", "a".repeat(55), "b".repeat(10));
    assert!(name_can_be_shown(&proc(1, "x", &ok, 0.0)));
    let bad = format!("{}é{}", "a".repeat(56), "b".repeat(10));
    assert!(!name_can_be_shown(&proc(1, "x", &bad, 0.0)));
    assert!(name_can_be_shown(&proc(1, &bad, "", 0.0)) == false);
    assert!(name_can_be_shown(&proc(1, "short", "", 0.0)));
}

#[test]
fn popup_geometry() {
    assert_eq!(popup_area(80, 24, 4), (20, 8, 40, 4));
    assert_eq!(popup_area(3, 2, 5), (0, 0, 1, 5));
}
