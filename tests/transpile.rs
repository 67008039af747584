use anansi::grammar::TemplateError;
use anansi::template::transpile;

const OPEN: &str = "{let mut _c = String::new();";
const CLOSE: &str = "Ok(anansi::web::Response::new(\"HTTP/1.1 200 OK\", _c.into_bytes()))}";

fn plain(code: &str) -> String {
    format!("{}{}{}", OPEN, code, CLOSE)
}

/// The value of a string literal body whose escapes are `\"` and `\\`.
fn literal_value(code: &str) -> String {
    let mut out = String::new();
    let mut chars = code.chars();
    while let Some(c) = chars.next() {
        if c == '\\' {
            if let Some(d) = chars.next() {
                out.push(d);
            }
        } else {
            out.push(c);
        }
    }
    out
}

#[test]
fn plain_text_becomes_one_literal() {
    let t = transpile("Hello").unwrap();
    assert_eq!(t.view, plain("_c.push_str(\"Hello\");"));
    assert!(t.args.is_none());
}

#[test]
fn empty_template() {
    let t = transpile("").unwrap();
    assert_eq!(t.view, plain("_c.push_str(\"\");"));
    assert!(t.args.is_none());
}

#[test]
fn quotes_and_backslashes_round_trip() {
    let text = "say \"hi\" \\ ok";
    let t = transpile(text).unwrap();
    assert_eq!(t.view, plain("_c.push_str(\"say \\\"hi\\\" \\\\ ok\");"));
    let body = t
        .view
        .strip_prefix("{let mut _c = String::new();_c.push_str(\"")
        .unwrap()
        .strip_suffix(&format!("\");{}", CLOSE))
        .unwrap()
        .to_string();
    assert_eq!(literal_value(&body), text);
}

#[test]
fn transpiling_twice_gives_the_same_output() {
    let text = "<p>@title </p>@if x {<b>@y </b>}";
    let a = transpile(text).unwrap();
    let b = transpile(text).unwrap();
    assert_eq!(a.view, b.view);
    assert_eq!(a.args, b.args);
}

#[test]
fn bare_expression_is_escaped() {
    let t = transpile("@name ").unwrap();
    assert_eq!(
        t.view,
        plain("_c.push_str(\"\");_c.push_str(&anansi::web::html_escape(&format!(\"{}\", name)));_c.push_str(\" \");")
    );
}

#[test]
fn unescape_is_not_escaped() {
    let t = transpile("@unescape name ").unwrap();
    assert_eq!(
        t.view,
        plain("_c.push_str(\"\");_c.push_str(&format!(\"{}\", name));_c.push_str(\" \");")
    );
}

#[test]
fn expression_followed_by_tag_keeps_the_tag() {
    let t = transpile("<i>@x</i>").unwrap();
    assert_eq!(
        t.view,
        plain("_c.push_str(\"<i>\");_c.push_str(&anansi::web::html_escape(&format!(\"{}\", x)));_c.push_str(\"</i>\");")
    );
}

#[test]
fn expression_followed_by_quote_keeps_it_escaped() {
    let t = transpile("a=\"@x\"").unwrap();
    assert_eq!(
        t.view,
        plain("_c.push_str(\"a=\\\"\");_c.push_str(&anansi::web::html_escape(&format!(\"{}\", x)));_c.push_str(\"\\\"\");")
    );
}

#[test]
fn parenthesised_expression() {
    let t = transpile("@(a + (b))").unwrap();
    assert_eq!(
        t.view,
        plain("_c.push_str(\"\");_c.push_str(&anansi::web::html_escape(&format!(\"{}\", a + (b))));_c.push_str(\"\");")
    );
}

#[test]
fn call_arguments_keep_quoted_parentheses() {
    let t = transpile("@f(a, \")\")!").unwrap();
    assert_eq!(
        t.view,
        plain("_c.push_str(\"\");_c.push_str(&anansi::web::html_escape(&format!(\"{}\", f(a, \")\"))));_c.push_str(\"!\");")
    );
}

#[test]
fn url_arguments_are_one_group() {
    let t = transpile("@url!(\"a,b(c)\")").unwrap();
    assert_eq!(
        t.view,
        plain("_c.push_str(\"\");_c.push_str(&anansi::web::html_escape(&format!(\"{}\", anansi::url!(\"a,b(c)\"))));_c.push_str(\"\");")
    );
}

#[test]
fn if_body_is_literal_text() {
    let t = transpile("@if x {yes}").unwrap();
    assert_eq!(t.view, plain("_c.push_str(\"\");if x {_c.push_str(\"yes\");}_c.push_str(\"\");"));
}

#[test]
fn nested_bodies_close_in_order() {
    let t = transpile("@for i in v {@if i {a}b}").unwrap();
    assert_eq!(
        t.view,
        plain("_c.push_str(\"\");for i in v {_c.push_str(\"\");if i {_c.push_str(\"a\");}_c.push_str(\"b\");}_c.push_str(\"\");")
    );
}

#[test]
fn form_body_closes_the_form() {
    let t = transpile("@build form {x}").unwrap();
    assert_eq!(
        t.view,
        plain("_c.push_str(\"\");_c.push_str(&form.tag()); if let Some(token_tag) = form.token_tag() { _c.push_str(&token_tag) } {_c.push_str(\"x</form>\");}_c.push_str(\"\");")
    );
}

#[test]
fn code_splice_is_emitted_as_code() {
    let t = transpile("@{let x = 1;}").unwrap();
    assert_eq!(t.view, plain("_c.push_str(\"\");let x = 1;_c.push_str(\"\");"));
}

#[test]
fn link_with_attribute() {
    let t = transpile("@link \"home\", class=\"nav\"{Home}").unwrap();
    assert_eq!(
        t.view,
        plain("_c.push_str(\"\");_c.push_str(&format!(\"<a href=\\\"{}\\\"  class=\\\"nav\\\">\", anansi::url!(\"home\")));_c.push_str(\"Home\");_c.push_str(\"</a>\");")
    );
}

#[test]
fn link_with_two_segments() {
    let t = transpile("@link a,b{x}").unwrap();
    assert_eq!(
        t.view,
        plain("_c.push_str(\"\");_c.push_str(&format!(\"<a href=\\\"{}\\\">\", anansi::url!(a, b)));_c.push_str(\"x\");_c.push_str(\"</a>\");")
    );
}

#[test]
fn base_block_reads_the_extenders_content() {
    let t = transpile("@block content ").unwrap();
    assert_eq!(
        t.view,
        plain("_c.push_str(\"\");_c.push_str(&_base_args._content);_c.push_str(\" \");")
    );
    assert_eq!(t.args.unwrap(), "pub struct Args {pub _content: String,}");
}

#[test]
fn child_block_is_bound_and_passed_to_the_base() {
    let t = transpile("@extend base\n@block content {CHILD}").unwrap();
    assert_eq!(
        t.view,
        "{let _content = {{let mut _c = String::new();_c.push_str(\"CHILD\"); _c}};base::base(req, base::Args{_content, })}"
    );
    assert!(t.args.is_none());
    assert!(!t.view.contains("DEFAULT"));
}

#[test]
fn chained_base_describes_its_own_blocks() {
    let t = transpile("@base_extend base\n@block content {@block inner }").unwrap();
    assert_eq!(
        t.view,
        "{let _content = {{let mut _c = String::new();_c.push_str(\"\");_c.push_str(&_base_args._inner);_c.push_str(\" \"); _c}};base::base(req, base::Args{_content, })}"
    );
    assert_eq!(t.args.unwrap(), "pub struct Args {pub _inner: String,}");
}

#[test]
fn chained_base_without_blocks_still_has_a_record() {
    let t = transpile("@base_extend base\n@block a {x}").unwrap();
    assert_eq!(t.args.unwrap(), "pub struct Args {}");
}

#[test]
fn duplicate_block_overwrites_the_earlier_one() {
    let t = transpile("@extend b\n@block a {1}\n@block a {2}").unwrap();
    assert_eq!(
        t.view,
        "{let _a = {{let mut _c = String::new();_c.push_str(\"2\"); _c}};b::base(req, b::Args{_a, })}"
    );
}

#[test]
fn two_blocks_keep_their_order() {
    let t = transpile("@extend b\n@block a {1}\n@block c {2}").unwrap();
    assert_eq!(
        t.view,
        "{let _a = {{let mut _c = String::new();_c.push_str(\"1\"); _c}};let _c = {{let mut _c = String::new();_c.push_str(\"2\"); _c}};b::base(req, b::Args{_a, _c, })}"
    );
}

#[test]
fn block_may_close_on_a_line_of_its_own() {
    let t = transpile("@extend b\n@block a {\nx\n}").unwrap();
    assert_eq!(
        t.view,
        "{let _a = {{let mut _c = String::new();_c.push_str(\"x\"); _c}};b::base(req, b::Args{_a, })}"
    );
}

#[test]
fn block_body_keeps_nested_braces() {
    let t = transpile("@extend b\n@block a {@if x {y}}").unwrap();
    assert_eq!(
        t.view,
        "{let _a = {{let mut _c = String::new();_c.push_str(\"\");if x {_c.push_str(\"y\");}_c.push_str(\"\"); _c}};b::base(req, b::Args{_a, })}"
    );
}

#[test]
fn base_name_is_trimmed() {
    let t = transpile("@extend  base \n@block a {x}").unwrap();
    assert!(t.view.ends_with("base::base(req, base::Args{_a, })}"));
}

#[test]
fn first_non_block_directive_ends_collection() {
    let t = transpile("@extend b\n@block a {x}\n@blok c {y}").unwrap();
    assert_eq!(
        t.view,
        "{let _a = {{let mut _c = String::new();_c.push_str(\"x\"); _c}};b::base(req, b::Args{_a, })}"
    );
}

#[test]
fn marker_at_the_end_is_an_error() {
    assert_eq!(transpile("abc@").err(), Some(TemplateError::DanglingMarker));
}

#[test]
fn unclosed_expression_is_an_error() {
    assert_eq!(transpile("@(a").err(), Some(TemplateError::UnterminatedExpression));
    assert_eq!(transpile("@f(a, \")\"").err(), Some(TemplateError::UnterminatedExpression));
}

#[test]
fn unterminated_name_is_an_error() {
    assert_eq!(transpile("@block name").err(), Some(TemplateError::UnterminatedName));
}

#[test]
fn unterminated_body_is_an_error() {
    assert_eq!(transpile("@if x {y").err(), Some(TemplateError::UnterminatedBody));
    assert_eq!(transpile("@if x").err(), Some(TemplateError::UnterminatedBody));
}

#[test]
fn unterminated_code_is_an_error() {
    assert_eq!(transpile("@{x").err(), Some(TemplateError::UnterminatedCode));
}

#[test]
fn unterminated_link_is_an_error() {
    assert_eq!(transpile("@link a").err(), Some(TemplateError::UnterminatedLink));
    assert_eq!(transpile("@link a{b").err(), Some(TemplateError::UnterminatedLink));
}

#[test]
fn link_without_target_is_an_error() {
    assert_eq!(transpile("@link k=v{x}").err(), Some(TemplateError::MissingLinkTarget));
}

#[test]
fn unterminated_block_is_an_error() {
    assert_eq!(
        transpile("@extend base\n@block a {x").err(),
        Some(TemplateError::UnterminatedBlock)
    );
}

#[test]
fn error_inside_a_block_body_is_reported() {
    assert_eq!(
        transpile("@extend base\n@block a {@}").err(),
        Some(TemplateError::DanglingMarker)
    );
}

#[test]
fn code_splice_runs_to_the_matching_brace() {
    let t = transpile("@{f(1); if a {b(\"}\");}}x").unwrap();
    assert_eq!(t.view, plain("_c.push_str(\"\");f(1); if a {b(\"}\");}_c.push_str(\"x\");"));
}

#[test]
fn form_without_body_is_self_closing() {
    let t = transpile("@build login <p>").unwrap();
    assert_eq!(
        t.view,
        plain("_c.push_str(\"\");_c.push_str(&login.tag()); if let Some(token_tag) = login.token_tag() { _c.push_str(&token_tag) }_c.push_str(\" <p>\");")
    );
}

#[test]
fn form_body_right_after_the_name() {
    let t = transpile("@build login{x}").unwrap();
    assert_eq!(
        t.view,
        plain("_c.push_str(\"\");_c.push_str(&login.tag()); if let Some(token_tag) = login.token_tag() { _c.push_str(&token_tag) }{_c.push_str(\"x</form>\");}_c.push_str(\"\");")
    );
}

#[test]
fn base_default_is_replaced_by_the_extenders_content() {
    let t = transpile("@block content{DEFAULT}").unwrap();
    assert_eq!(
        t.view,
        plain("_c.push_str(\"\");_c.push_str(&_base_args._content);_c.push_str(\"\");")
    );
    assert!(!t.view.contains("DEFAULT"));
    assert_eq!(t.args.unwrap(), "pub struct Args {pub _content: String,}");
}

#[test]
fn base_default_with_text_after_it() {
    let t = transpile("<p>@block content{<b>{DEFAULT}</b>}</p>").unwrap();
    assert_eq!(
        t.view,
        plain("_c.push_str(\"<p>\");_c.push_str(&_base_args._content);_c.push_str(\"</p>\");")
    );
}

#[test]
fn child_block_written_without_a_space() {
    let t = transpile("@extend B\n@block content{CHILD}").unwrap();
    assert_eq!(
        t.view,
        "{let _content = {{let mut _c = String::new();_c.push_str(\"CHILD\"); _c}};B::base(req, B::Args{_content, })}"
    );
    assert!(t.args.is_none());
}

#[test]
fn unclosed_base_default_is_an_error() {
    assert_eq!(transpile("@block content{x").err(), Some(TemplateError::UnterminatedBlock));
}

#[test]
fn first_token_ends_at_any_whitespace() {
    let t = transpile("@extend\tbase\n@block a{x}").unwrap();
    assert_eq!(
        t.view,
        "{let _a = {{let mut _c = String::new();_c.push_str(\"x\"); _c}};base::base(req, base::Args{_a, })}"
    );
}
