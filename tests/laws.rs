use tiny_pretty::{print, Doc, IndentKind, LineBreak, PrintOptions};

fn with_width(width: usize) -> PrintOptions {
    PrintOptions { width, ..Default::default() }
}

#[test]
fn plain_doc_prints_its_texts_at_any_width() {
    let doc = Doc::list(vec![
        Doc::text("ab"),
        Doc::list(vec![Doc::text("cd"), Doc::nil(), Doc::text("ef")]).nest(4),
        Doc::text("gh").nest(2),
    ]);
    for width in [0, 1, 3, 80, usize::MAX] {
        assert_eq!("abcdefgh", print(&doc, &with_width(width)));
    }
}

fn breaking_doc() -> Doc {
    Doc::list(vec![
        Doc::text("aa"),
        Doc::line_or_space(),
        Doc::flat_or_break(Doc::text("x"), Doc::text("y")),
        Doc::line_or_nil(),
        Doc::text("bb").union(Doc::text("BB")),
        Doc::list(vec![Doc::text("c"), Doc::line_or_space(), Doc::text("d")]).group().nest(2),
    ])
}

#[test]
fn wide_enough_prints_flat() {
    let doc = breaking_doc().group();
    assert_eq!("aa xbbc d", print(&doc, &with_width(9)));
    assert_eq!("aa xbbc d", print(&doc, &with_width(usize::MAX)));
    assert_eq!("aa\ny\nbbc d", print(&doc, &with_width(8)));
}

#[test]
fn group_breaks_iff_content_and_what_follows_overflow() {
    let doc = Doc::list(vec![
        Doc::list(vec![Doc::text("ab"), Doc::line_or_space(), Doc::text("cd")]).group(),
        Doc::text("efg"),
    ]);
    assert_eq!("ab cdefg", print(&doc, &with_width(8)));
    assert_eq!("ab\ncdefg", print(&doc, &with_width(7)));
    let ended = Doc::list(vec![
        Doc::list(vec![Doc::text("ab"), Doc::line_or_space(), Doc::text("cd")]).group(),
        Doc::line_or_space(),
        Doc::text("zzzzzz"),
    ]);
    assert_eq!("ab cd\nzzzzzz", print(&ended, &with_width(5)));
    assert_eq!("ab\ncd\nzzzzzz", print(&ended, &with_width(4)));
}

#[test]
fn hard_line_in_group_forces_break_at_any_width() {
    let doc = Doc::list(vec![Doc::text("a"), Doc::line_or_space(), Doc::text("b"), Doc::hard_line(), Doc::text("c")]).group();
    assert_eq!("a\nb\nc", print(&doc, &with_width(usize::MAX)));
}

#[test]
fn nest_shifts_lines_only() {
    let doc = Doc::list(vec![Doc::text("x"), Doc::hard_line(), Doc::text("y")]);
    assert_eq!("x\ny", print(&doc, &PrintOptions::default()));
    assert_eq!("x\n   y", print(&doc.clone().nest(3), &PrintOptions::default()));
    assert_eq!("x\n      y", print(&doc.nest(3).nest(3), &PrintOptions::default()));
    let flat = Doc::list(vec![Doc::text("a"), Doc::line_or_space().nest(5), Doc::text("b")]).group();
    assert_eq!("a b", print(&flat, &PrintOptions::default()));
    let folded = Doc::line_or_space().nest(3);
    let wrapped = Doc::list(vec![Doc::line_or_space()]).nest(3);
    assert_eq!("\n   ", print(&folded, &PrintOptions::default()));
    assert_eq!(print(&folded, &PrintOptions::default()), print(&wrapped, &PrintOptions::default()));
    let saturated = Doc::line_or_space().nest(usize::MAX).nest(1);
    assert_eq!("\n\t", print(&saturated, &PrintOptions { indent_kind: IndentKind::Tab, tab_size: usize::MAX, ..Default::default() }));
}

#[test]
fn crlf_changes_only_line_breaks() {
    let doc = Doc::list(vec![
        breaking_doc().group(),
        Doc::hard_line(),
        Doc::empty_line(),
        Doc::text("tail").nest(2),
        Doc::line_or_space().nest(2),
        Doc::text("end"),
    ]);
    for width in [3, 8, 9, 80] {
        let lf = print(&doc, &with_width(width));
        let crlf = print(&doc, &PrintOptions { width, line_break: LineBreak::Crlf, ..Default::default() });
        assert_eq!(lf.replace('\n', "\r\n"), crlf);
    }
}

fn visual(s: &str, tab_size: usize) -> usize {
    s.chars().map(|c| if c == '\t' { tab_size } else { 1 }).sum()
}

#[test]
fn tab_indentation_reaches_same_column_as_spaces() {
    for tab_size in 1..6 {
        for n in 0..20 {
            let doc = Doc::hard_line().nest(n);
            let tabs = print(&doc, &PrintOptions { indent_kind: IndentKind::Tab, tab_size, ..Default::default() });
            let spaces = print(&doc, &PrintOptions { indent_kind: IndentKind::Space, tab_size, ..Default::default() });
            assert_eq!(visual(&tabs[1..], tab_size), n);
            assert_eq!(visual(&spaces[1..], tab_size), n);
            assert_eq!(tabs.matches('\t').count(), n / tab_size);
        }
    }
}
