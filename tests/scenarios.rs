use tiny_pretty::{measure_text_width, print, Doc, IndentKind, LineBreak, PrintOptions, TextMeasure};

fn with_width(width: usize) -> PrintOptions {
    PrintOptions { width, ..Default::default() }
}

struct FunctionCall {
    name: String,
    args: Vec<FunctionCall>,
}

fn call(name: &str) -> FunctionCall {
    FunctionCall { name: name.to_string(), args: vec![] }
}

fn build_doc(fn_call: &FunctionCall) -> Doc {
    let mut args = Vec::new();
    for (i, arg) in fn_call.args.iter().enumerate() {
        if i > 0 {
            args.push(Doc::text(",").append(Doc::line_or_space()));
        }
        args.push(build_doc(arg));
    }
    Doc::text(&fn_call.name).append(Doc::text("(")).append(
        Doc::line_or_nil()
            .append(Doc::list(args))
            .nest(2)
            .append(Doc::line_or_nil())
            .group(),
    )
    .append(Doc::text(")"))
}

#[test]
fn hard_line_between_texts() {
    let doc = Doc::text("a").append(Doc::hard_line()).append(Doc::text("b"));
    assert_eq!("a\nb", print(&doc, &PrintOptions::default()));
}

#[test]
fn group_breaks_when_too_wide() {
    let doc = Doc::list(vec![Doc::text("aaaa"), Doc::line_or_space(), Doc::text("bbbb")]).group();
    assert_eq!("aaaa\nbbbb", print(&doc, &with_width(5)));
    assert_eq!("aaaa bbbb", print(&doc, &with_width(20)));
}

#[test]
fn long_words_still_overflow() {
    let doc = Doc::list(vec![Doc::text("aaaaaaaa"), Doc::line_or_space(), Doc::text("bbbbbbbb")]).group();
    assert_eq!("aaaaaaaa\nbbbbbbbb", print(&doc, &with_width(5)));
}

#[test]
fn line_or_nil_in_group() {
    let doc = Doc::list(vec![Doc::text("func("), Doc::line_or_nil(), Doc::text("arg")]).group();
    assert_eq!("func(\narg", print(&doc, &with_width(5)));
    assert_eq!("func(arg", print(&doc, &with_width(1000)));
    let short = Doc::list(vec![Doc::text("f("), Doc::line_or_nil(), Doc::text("arg")]).group();
    assert_eq!("f(arg", print(&short, &with_width(5)));
    let ungrouped = Doc::list(vec![Doc::text("f("), Doc::line_or_nil(), Doc::text("arg")]);
    assert_eq!("f(\narg", print(&ungrouped, &with_width(5)));
}

#[test]
fn function_call_breaks_arguments() {
    let long = FunctionCall {
        name: "foo".to_string(),
        args: vec![
            call("really_long_arg"),
            call("omg_so_many_parameters"),
            call("we_should_refactor_this"),
            call("is_there_seriously_another_one"),
        ],
    };
    assert_eq!(
        "foo(\n  really_long_arg(),\n  omg_so_many_parameters(),\n  we_should_refactor_this(),\n  is_there_seriously_another_one()\n)",
        print(&build_doc(&long), &PrintOptions::default())
    );
    let short = FunctionCall {
        name: "foo".to_string(),
        args: vec![call("a"), call("b"), call("c"), call("d")],
    };
    assert_eq!("foo(a(), b(), c(), d())", print(&build_doc(&short), &PrintOptions::default()));
}

#[test]
fn empty_line_has_no_indentation() {
    assert_eq!("\n", print(&Doc::empty_line().nest(1), &PrintOptions::default()));
    assert_eq!("\n ", print(&Doc::hard_line().nest(1), &PrintOptions::default()));
}

#[test]
fn single_nodes() {
    assert_eq!("code", print(&Doc::text("code"), &PrintOptions::default()));
    assert_eq!("code", print(&Doc::text(&String::from("code")), &PrintOptions::default()));
    assert!(print(&Doc::nil(), &PrintOptions::default()).is_empty());
    assert_eq!(" ", print(&Doc::space(), &PrintOptions::default()));
    assert_eq!("code", print(&Doc::text("code").group(), &PrintOptions::default()));
    assert_eq!("code", print(&Doc::text("code").nest(2), &PrintOptions::default()));
    assert_eq!("\n  ", print(&Doc::hard_line().nest(2), &PrintOptions::default()));
}

#[test]
fn crlf_line_breaks() {
    let crlf = PrintOptions { line_break: LineBreak::Crlf, ..Default::default() };
    assert_eq!("\n", print(&Doc::hard_line(), &PrintOptions::default()));
    assert_eq!("\r\n", print(&Doc::hard_line(), &crlf));
    let doc = Doc::list(vec![Doc::text("a"), Doc::hard_line(), Doc::text("b")]);
    assert_eq!("a\nb", print(&doc, &PrintOptions::default()));
    assert_eq!("a\r\nb", print(&doc, &crlf));
}

#[test]
fn hard_line_forces_group_to_break() {
    let doc = Doc::text("fn(").append(Doc::line_or_space()).append(Doc::hard_line()).group();
    assert_eq!("fn(\n\n", print(&doc, &PrintOptions::default()));
}

#[test]
fn soft_line_fills_lines() {
    let options = with_width(10);
    let soft = Doc::list(vec![
        Doc::text("aaaa"),
        Doc::soft_line(),
        Doc::text("bbbb"),
        Doc::soft_line(),
        Doc::text("cccc"),
    ])
    .group();
    assert_eq!("aaaa bbbb\ncccc", print(&soft, &options));
    let all = Doc::list(vec![
        Doc::text("aaaa"),
        Doc::line_or_space(),
        Doc::text("bbbb"),
        Doc::line_or_space(),
        Doc::text("cccc"),
    ])
    .group();
    assert_eq!("aaaa\nbbbb\ncccc", print(&all, &options));
}

#[test]
fn line_or_space_outside_group_breaks() {
    let options = with_width(10);
    let grouped = Doc::list(vec![Doc::text("a"), Doc::line_or_space(), Doc::text("b")]).group();
    assert_eq!("a b", print(&grouped, &options));
    let bare = Doc::list(vec![Doc::text("a"), Doc::line_or_space(), Doc::text("b")]);
    assert_eq!("a\nb", print(&bare, &options));
}

fn trailing_comma_call() -> Doc {
    Doc::list(vec![
        Doc::text("function("),
        Doc::line_or_nil(),
        Doc::text("arg"),
        Doc::flat_or_break(Doc::nil(), Doc::text(",")),
        Doc::line_or_nil(),
        Doc::text(")"),
    ])
}

#[test]
fn flat_or_break_follows_group_mode() {
    let doc = trailing_comma_call().group();
    assert_eq!("function(\narg,\n)", print(&doc, &with_width(10)));
    assert_eq!("function(arg)", print(&doc, &with_width(20)));
    assert_eq!("function(\narg,\n)", print(&trailing_comma_call(), &with_width(20)));
}

#[test]
fn union_falls_back_when_attempt_overflows() {
    let closure = Doc::list(vec![
        Doc::text("|| {"),
        Doc::hard_line()
            .append(
                Doc::text("call2(|| {")
                    .append(Doc::hard_line().append(Doc::text("value")).nest(4))
                    .append(Doc::hard_line())
                    .append(Doc::text("})")),
            )
            .nest(4),
        Doc::hard_line(),
        Doc::text("}"),
    ]);
    let doc = Doc::text("fn main() {")
        .append(
            Doc::hard_line()
                .append(
                    Doc::list(vec![
                        Doc::text("call1("),
                        Doc::nil()
                            .append(Doc::text("very_long_arg"))
                            .append(Doc::text(","))
                            .append(Doc::space())
                            .append(closure.clone())
                            .nest(0),
                        Doc::text(")"),
                    ])
                    .union(Doc::list(vec![
                        Doc::text("call1("),
                        Doc::hard_line()
                            .append(Doc::text("very_long_arg"))
                            .append(Doc::text(","))
                            .append(Doc::hard_line())
                            .append(closure)
                            .nest(4),
                        Doc::hard_line(),
                        Doc::text(")"),
                    ])),
                )
                .nest(4),
        )
        .append(Doc::hard_line())
        .append(Doc::text("}"));
    assert_eq!(
        "fn main() {\n    call1(\n        very_long_arg,\n        || {\n            call2(|| {\n                value\n            })\n        }\n    )\n}",
        print(&doc, &with_width(10))
    );
    assert_eq!(
        "fn main() {\n    call1(very_long_arg, || {\n        call2(|| {\n            value\n        })\n    })\n}",
        print(&doc, &with_width(30))
    );
}

#[test]
fn append_and_concat_join_texts() {
    let doc = Doc::text("a").append(Doc::text("b")).append(Doc::text("c"));
    assert_eq!("abc", print(&doc, &PrintOptions::default()));
    let doc = Doc::text("a").concat(vec![Doc::text("b"), Doc::text("c")]);
    assert_eq!("abc", print(&doc, &PrintOptions::default()));
    let doc = Doc::list(vec![Doc::text("a"), Doc::text("b"), Doc::text("c")]);
    assert_eq!("abc", print(&doc, &PrintOptions::default()));
}

#[test]
fn tab_indentation() {
    let doc = Doc::list(vec![Doc::text("aaaa"), Doc::hard_line(), Doc::text("bbbb")]).group().nest(8);
    let tabs5 = PrintOptions { indent_kind: IndentKind::Tab, tab_size: 5, ..Default::default() };
    assert_eq!("aaaa\n\t   bbbb", print(&doc, &tabs5));
    let tabs4 = PrintOptions { indent_kind: IndentKind::Tab, tab_size: 4, ..Default::default() };
    assert_eq!("aaaa\n\t\tbbbb", print(&doc, &tabs4));
    let spaces = PrintOptions { indent_kind: IndentKind::Space, tab_size: 5, ..Default::default() };
    assert_eq!("aaaa\n        bbbb", print(&doc, &spaces));
    let two = Doc::list(vec![Doc::text("a"), Doc::hard_line().nest(2), Doc::text("b")]);
    assert_eq!("a\n  b", print(&two, &PrintOptions::default()));
    let tab2 = PrintOptions { indent_kind: IndentKind::Tab, ..Default::default() };
    assert_eq!("a\n\tb", print(&two, &tab2));
}

#[test]
fn default_options() {
    let o = PrintOptions::default();
    assert_eq!(o.width, 80);
    assert_eq!(o.tab_size, 2);
    assert_eq!(o.line_break, LineBreak::Lf);
    assert_eq!(o.indent_kind, IndentKind::Space);
    assert_eq!(o.measure, TextMeasure::Chars);
}

#[test]
fn unicode_width_measure() {
    assert_eq!(4, measure_text_width(TextMeasure::UnicodeWidth, "\u{FF28}\u{FF49}"));
    assert_eq!(2, measure_text_width(TextMeasure::Chars, "\u{FF28}\u{FF49}"));
    assert_eq!(3, measure_text_width(TextMeasure::Chars, "abc"));
    let doc = Doc::list(vec![Doc::text("\u{FF41}\u{FF42}\u{FF43}"), Doc::line_or_space(), Doc::text("d")]).group();
    let chars = PrintOptions { width: 6, ..Default::default() };
    assert_eq!("\u{FF41}\u{FF42}\u{FF43} d", print(&doc, &chars));
    let cells = PrintOptions { width: 6, measure: TextMeasure::UnicodeWidth, ..Default::default() };
    assert_eq!("\u{FF41}\u{FF42}\u{FF43}\nd", print(&doc, &cells));
}

#[test]
fn empty_and_zero_width_edges() {
    assert_eq!("", print(&Doc::list(vec![]), &PrintOptions::default()));
    assert_eq!("", print(&Doc::list(vec![]).group(), &with_width(0)));
    assert_eq!("a", print(&Doc::text("a").concat(vec![]), &PrintOptions::default()));
    let doc = Doc::list(vec![Doc::text("a"), Doc::line_or_space(), Doc::text("b")]).group();
    assert_eq!("a\nb", print(&doc, &with_width(0)));
    assert_eq!("ab", print(&Doc::text("ab").group().group(), &with_width(0)));
}

#[test]
fn union_takes_alternate_when_both_overflow() {
    let doc = Doc::text("wide_attempt").union(Doc::text("wide_fallback"));
    assert_eq!("wide_fallback", print(&doc, &with_width(3)));
    assert_eq!("wide_attempt", print(&doc, &with_width(12)));
    let after = Doc::list(vec![Doc::text("ab").union(Doc::text("c")), Doc::text("def")]);
    assert_eq!("abdef", print(&after, &with_width(2)));
}
