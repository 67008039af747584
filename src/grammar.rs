//! The template language, stated as spec functions.
//!
//! A template is scanned left to right. Literal text is copied into string
//! literals of the generated code; the marker `@` introduces a directive,
//! which closes the current literal, emits code and reopens a literal. Each
//! scanning function here takes the source `s`, the end `end` of the window
//! being scanned and a `ScanState`, and yields the state after it, or the
//! error that makes the whole template invalid.

use vstd::prelude::*;

verus! {

/// Why a template cannot be transpiled.
#[derive(Clone, Copy, Debug, PartialEq, Eq, Structural)]
pub enum TemplateError {
    /// The marker is the last character of the input.
    DanglingMarker,
    /// An expression in parentheses is not closed.
    UnterminatedExpression,
    /// A directive's name runs to the end of the input.
    UnterminatedName,
    /// A control-flow or form body has no opening or no closing brace.
    UnterminatedBody,
    /// A raw code splice has no closing brace.
    UnterminatedCode,
    /// A link directive has no body in braces.
    UnterminatedLink,
    /// A link directive names no URL target.
    MissingLinkTarget,
    /// An inherited block's body is not closed.
    UnterminatedBlock,
}

/// Where a scan stands: the read position, the code generated so far and
/// the names of the blocks that the template declares, in order.
#[verifier::ext_equal]
pub struct ScanState {
    pub pos: int,
    pub out: Seq<char>,
    pub blocks: Seq<Seq<char>>,
}

/// The first index in `[p, end)` that holds `c`, or `end`.
pub open spec fn find_from(s: Seq<char>, p: int, end: int, c: char) -> int
    decreases end - p,
{
    if p >= end {
        end
    } else if s[p] == c {
        p
    } else {
        find_from(s, p + 1, end, c)
    }
}

pub proof fn lemma_find_from_bounds(s: Seq<char>, p: int, end: int, c: char)
    requires
        p <= end,
    ensures
        p <= find_from(s, p, end, c) <= end,
        find_from(s, p, end, c) < end ==> s[find_from(s, p, end, c)] == c,
    decreases end - p,
{
    if p < end && s[p] != c {
        lemma_find_from_bounds(s, p + 1, end, c);
    }
}

/// The position after index `i`, or `end` where `i` is past the window.
pub open spec fn past(i: int, end: int) -> int {
    if i < end {
        i + 1
    } else {
        end
    }
}

/// Characters that end the word after the marker.
pub open spec fn ends_word(c: char) -> bool {
    c == ' ' || c == '<' || c == '\n' || c == '(' || c == '/' || c == '"'
}

/// The first index in `[p, end)` that ends a word, or `end`.
pub open spec fn word_end(s: Seq<char>, p: int, end: int) -> int
    decreases end - p,
{
    if p >= end {
        end
    } else if ends_word(s[p]) {
        p
    } else {
        word_end(s, p + 1, end)
    }
}

/// Characters that end a directive's name.
pub open spec fn ends_name(c: char) -> bool {
    c == ' ' || c == '<' || c == '\n' || c == '{'
}

/// The first index in `[p, end)` that ends a name, or `end`.
pub open spec fn name_end(s: Seq<char>, p: int, end: int) -> int
    decreases end - p,
{
    if p >= end {
        end
    } else if ends_name(s[p]) {
        p
    } else {
        name_end(s, p + 1, end)
    }
}

/// The index of the `)` that closes a parenthesis opened `depth` levels
/// above `p`, counting parentheses only, or `end`.
pub open spec fn expr_close(s: Seq<char>, p: int, end: int, depth: nat) -> int
    decreases end - p,
{
    if p >= end {
        end
    } else if s[p] == ')' {
        if depth == 0 {
            p
        } else {
            expr_close(s, p + 1, end, (depth - 1) as nat)
        }
    } else if s[p] == '(' {
        expr_close(s, p + 1, end, depth + 1)
    } else {
        expr_close(s, p + 1, end, depth)
    }
}

/// The index of the `)` that closes an argument list, skipping parentheses
/// that stand inside string literals, or `end`. `quote` says whether `p`
/// lies inside a string literal.
pub open spec fn paren_close(s: Seq<char>, p: int, end: int, depth: nat, quote: bool) -> int
    decreases end - p,
{
    if p >= end {
        end
    } else if quote {
        if s[p] == '\\' {
            if p + 1 >= end {
                end
            } else {
                paren_close(s, p + 2, end, depth, true)
            }
        } else {
            paren_close(s, p + 1, end, depth, s[p] != '"')
        }
    } else if s[p] == ')' {
        if depth == 0 {
            p
        } else {
            paren_close(s, p + 1, end, (depth - 1) as nat, false)
        }
    } else if s[p] == '(' {
        paren_close(s, p + 1, end, depth + 1, false)
    } else {
        paren_close(s, p + 1, end, depth, s[p] == '"')
    }
}

/// The index of the `}` that closes a code splice begun just before `p`,
/// skipping what stands inside string literals, or `end`. `quote` says
/// whether `p` lies inside a string literal.
pub open spec fn code_close(s: Seq<char>, p: int, end: int, depth: nat, quote: bool) -> int
    decreases end - p,
{
    if p >= end {
        end
    } else if quote {
        if s[p] == '\\' {
            if p + 1 >= end {
                end
            } else {
                code_close(s, p + 2, end, depth, true)
            }
        } else {
            code_close(s, p + 1, end, depth, s[p] != '"')
        }
    } else if s[p] == '}' {
        if depth == 0 {
            p
        } else {
            code_close(s, p + 1, end, (depth - 1) as nat, false)
        }
    } else if s[p] == '{' {
        code_close(s, p + 1, end, depth + 1, false)
    } else {
        code_close(s, p + 1, end, depth, s[p] == '"')
    }
}

/// The position after an inherited block's body that ends at `k`: past the
/// `}`, or past the line break and `}`.
pub open spec fn past_block(s: Seq<char>, k: int) -> int {
    if s[k] == '}' {
        k + 1
    } else {
        k + 2
    }
}

/// The index where an inherited block's body ends, or `end`. The body ends
/// at a `}` or a line break followed by `}` that closes the block's own
/// brace; braces inside string literals and escaped characters do not count.
pub open spec fn block_close(s: Seq<char>, p: int, end: int, depth: nat, quote: bool) -> int
    decreases end - p,
{
    if p >= end {
        end
    } else if s[p] == '\\' {
        block_close(s, if p + 1 < end { p + 2 } else { p + 1 }, end, depth, quote)
    } else if quote {
        block_close(s, p + 1, end, depth, s[p] != '"')
    } else if s[p] == '{' {
        block_close(s, p + 1, end, depth + 1, false)
    } else if s[p] == '}' {
        if depth == 0 {
            p
        } else {
            block_close(s, p + 1, end, (depth - 1) as nat, false)
        }
    } else if s[p] == '"' {
        block_close(s, p + 1, end, depth, true)
    } else if s[p] == '\n' && p + 1 < end {
        if s[p + 1] == '}' {
            if depth == 0 {
                p
            } else {
                block_close(s, p + 2, end, (depth - 1) as nat, false)
            }
        } else {
            block_close(s, p + 2, end, depth, false)
        }
    } else {
        block_close(s, p + 1, end, depth, false)
    }
}

/// Opens a string literal appended to the output buffer `_c`.
pub open spec fn lit_open() -> Seq<char> {
    "_c.push_str(\""@
}

/// Closes the string literal opened by `lit_open`.
pub open spec fn lit_close() -> Seq<char> {
    "\");"@
}

/// One character of literal text as it stands inside a string literal.
pub open spec fn lit_char(c: char) -> Seq<char> {
    if c == '"' {
        "\\\""@
    } else if c == '\\' {
        "\\\\"@
    } else {
        seq![c]
    }
}

/// Literal text as it stands inside a string literal.
pub open spec fn lit_text(t: Seq<char>) -> Seq<char>
    decreases t.len(),
{
    if t.len() == 0 {
        Seq::empty()
    } else {
        lit_text(t.drop_last()) + lit_char(t.last())
    }
}

/// Code that appends the HTML-escaped value of `e`, then reopens a literal.
pub open spec fn escaped_expr(e: Seq<char>) -> Seq<char> {
    "_c.push_str(&anansi::web::html_escape(&format!(\"{}\", "@ + e + ")));_c.push_str(\""@
}

/// Code that appends the value of `e` unescaped, then reopens a literal.
pub open spec fn raw_expr(e: Seq<char>) -> Seq<char> {
    "_c.push_str(&format!(\"{}\", "@ + e + "));_c.push_str(\""@
}

/// Code that appends the content an extending template gave block `name`,
/// then reopens a literal.
pub open spec fn block_ref(name: Seq<char>) -> Seq<char> {
    "_c.push_str(&_base_args._"@ + name + ");_c.push_str(\""@
}

/// Code that closes a control-flow or form body.
pub open spec fn body_close(form: bool) -> Seq<char> {
    if form {
        "</form>\");}_c.push_str(\""@
    } else {
        "\");}_c.push_str(\""@
    }
}

/// Code that renders the opening tag of form `name`, with its anti-forgery
/// token where the form has one.
pub open spec fn form_head(name: Seq<char>) -> Seq<char> {
    "_c.push_str(&"@ + name + ".tag()); if let Some(token_tag) = "@ + name
        + ".token_tag() { _c.push_str(&token_tag) }"@
}

/// Code that renders an anchor's opening tag for the URL that `url`
/// resolves to, with the literal attributes `attrs`.
pub open spec fn link_open(attrs: Seq<char>, url: Seq<char>) -> Seq<char> {
    "_c.push_str(&format!(\"<a href=\\\"{}\\\""@ + attrs + ">\", anansi::url!("@ + url
        + ")));"@
}

/// Code that renders an anchor's closing tag.
pub open spec fn link_close() -> Seq<char> {
    "_c.push_str(\"</a>"@
}

/// The URL-resolution macro's path.
pub open spec fn url_macro() -> Seq<char> {
    "anansi::url!"@
}

/// A double quote escaped as it stands inside a string literal.
pub open spec fn quote_escaped(t: Seq<char>) -> Seq<char>
    decreases t.len(),
{
    if t.len() == 0 {
        Seq::empty()
    } else {
        quote_escaped(t.drop_last()) + (if t.last() == '"' {
            "\\\""@
        } else {
            seq![t.last()]
        })
    }
}

/// The comma-separated pieces of `t`.
pub open spec fn split_commas(t: Seq<char>) -> Seq<Seq<char>>
    decreases t.len()
        via split_commas_decreases
{
    let i = find_from(t, 0, t.len() as int, ',');
    if i >= t.len() {
        seq![t]
    } else {
        seq![t.subrange(0, i)] + split_commas(t.subrange(i + 1, t.len() as int))
    }
}

#[via_fn]
proof fn split_commas_decreases(t: Seq<char>) {
    lemma_find_from_bounds(t, 0, t.len() as int, ',');
}

/// The link arguments of the form `name=value`, as HTML attributes.
pub open spec fn link_attrs(args: Seq<Seq<char>>) -> Seq<char>
    decreases args.len(),
{
    if args.len() == 0 {
        Seq::empty()
    } else {
        link_attrs(args.drop_last()) + (if args.last().contains('=') {
            seq![' '] + quote_escaped(args.last())
        } else {
            Seq::empty()
        })
    }
}

/// The link arguments that are not attributes: the URL's segments.
pub open spec fn link_segments(args: Seq<Seq<char>>) -> Seq<Seq<char>>
    decreases args.len(),
{
    if args.len() == 0 {
        Seq::empty()
    } else if args.last().contains('=') {
        link_segments(args.drop_last())
    } else {
        link_segments(args.drop_last()).push(args.last())
    }
}

/// Segments joined by `", "`.
pub open spec fn join_segments(segs: Seq<Seq<char>>) -> Seq<char>
    decreases segs.len(),
{
    if segs.len() <= 1 {
        if segs.len() == 0 {
            Seq::empty()
        } else {
            segs[0]
        }
    } else {
        join_segments(segs.drop_last()) + ", "@ + segs.last()
    }
}

/// The state with `more` appended to the output and the position moved to `pos`.
pub open spec fn emit(st: ScanState, pos: int, more: Seq<char>) -> ScanState {
    ScanState { pos, out: st.out + more, blocks: st.blocks }
}

/// Scans literal text from `st.pos` up to `end`. In a body (`in_body`) a
/// `}` closes the body and ends the scan; `form` says whether the body is a
/// form's, whose closing tag is then rendered.
///
/// A directive that succeeds always moves forward within the window
/// (`lemma_directive_advances`); the test on its end position only makes
/// the recursion's measure visible.
pub open spec fn scan_text(
    s: Seq<char>,
    end: int,
    st: ScanState,
    in_body: bool,
    form: bool,
) -> Result<ScanState, TemplateError>
    decreases end - st.pos, 2int,
{
    if st.pos >= end {
        if in_body {
            Err(TemplateError::UnterminatedBody)
        } else {
            Ok(st)
        }
    } else {
        let c = s[st.pos];
        if c == '@' {
            match directive(s, end, emit(st, st.pos + 1, lit_close())) {
                Ok(next) => {
                    if st.pos < next.pos <= end {
                        scan_text(s, end, next, in_body, form)
                    } else {
                        Ok(next)
                    }
                },
                Err(e) => Err(e),
            }
        } else if c == '}' && in_body {
            Ok(emit(st, st.pos + 1, body_close(form)))
        } else {
            scan_text(s, end, emit(st, st.pos + 1, lit_char(c)), in_body, form)
        }
    }
}

/// A directive whose marker stood just before `st.pos`; the literal that
/// was open is already closed in `st.out`.
pub open spec fn directive(s: Seq<char>, end: int, st: ScanState) -> Result<
    ScanState,
    TemplateError,
>
    decreases end - st.pos, 1int,
{
    if st.pos >= end {
        Err(TemplateError::DanglingMarker)
    } else if s[st.pos] == '{' {
        let k = code_close(s, st.pos + 1, end, 0, false);
        if k >= end {
            Err(TemplateError::UnterminatedCode)
        } else {
            Ok(emit(st, k + 1, s.subrange(st.pos + 1, k) + lit_open()))
        }
    } else if s[st.pos] == '(' {
        let i = expr_close(s, st.pos + 1, end, 0);
        if i >= end {
            Err(TemplateError::UnterminatedExpression)
        } else {
            Ok(emit(st, i + 1, escaped_expr(s.subrange(st.pos + 1, i))))
        }
    } else {
        let i = word_end(s, st.pos + 1, end);
        let word = s.subrange(st.pos, i);
        let extra = if i < end {
            lit_char(s[i])
        } else {
            Seq::empty()
        };
        let p = past(i, end);
        if word == "if"@ || word == "for"@ || word == "loop"@ || word == "while"@ {
            control_body(s, end, st, p, word + extra, false)
        } else if word == "build"@ {
            let j = name_end(s, p, end);
            let name = s.subrange(p, j);
            if j >= end {
                Err(TemplateError::UnterminatedName)
            } else if s[j] == '{' {
                control_body(s, end, st, j, form_head(name), true)
            } else if s[j] == ' ' && j + 1 < end && s[j + 1] == '{' {
                control_body(s, end, st, j + 1, form_head(name) + seq![' '], true)
            } else {
                Ok(emit(st, j + 1, form_head(name) + lit_open() + seq![s[j]]))
            }
        } else if word == "block"@ || word == "unescape"@ {
            let j = name_end(s, p, end);
            if j >= end {
                Err(TemplateError::UnterminatedName)
            } else {
                let name = s.subrange(p, j);
                if word == "block"@ && s[j] == '{' {
                    let k = block_close(s, j + 1, end, 0, false);
                    if k >= end {
                        Err(TemplateError::UnterminatedBlock)
                    } else {
                        Ok(
                            ScanState {
                                pos: past_block(s, k),
                                out: st.out + block_ref(name),
                                blocks: st.blocks.push(name),
                            },
                        )
                    }
                } else if word == "block"@ {
                    Ok(
                        ScanState {
                            pos: j + 1,
                            out: st.out + block_ref(name) + seq![s[j]],
                            blocks: st.blocks.push(name),
                        },
                    )
                } else {
                    Ok(emit(st, j + 1, raw_expr(name) + seq![s[j]]))
                }
            }
        } else if word == "link"@ {
            link(s, end, st, p)
        } else if word == "url!"@ {
            expression(s, end, st, p, url_macro(), extra)
        } else {
            expression(s, end, st, p, word, extra)
        }
    }
}

/// An expression `e` to be rendered escaped; where it is followed by `(`,
/// its argument list from `p` to the matching `)` belongs to it.
pub open spec fn expression(
    s: Seq<char>,
    end: int,
    st: ScanState,
    p: int,
    e: Seq<char>,
    extra: Seq<char>,
) -> Result<ScanState, TemplateError> {
    if extra == seq!['('] {
        let i = paren_close(s, p, end, 0, false);
        if i >= end {
            Err(TemplateError::UnterminatedExpression)
        } else {
            Ok(emit(st, i + 1, escaped_expr(e + seq!['('] + s.subrange(p, i + 1))))
        }
    } else {
        Ok(emit(st, p, escaped_expr(e) + extra))
    }
}

/// A control-flow or form directive: `head` and the source up to the body's
/// `{` are emitted as code, then the body is scanned as literal text.
/// (`p` always lies past the marker, and `find_from` never before `p`; the
/// test says so for the recursion's measure.)
pub open spec fn control_body(
    s: Seq<char>,
    end: int,
    st: ScanState,
    p: int,
    head: Seq<char>,
    form: bool,
) -> Result<ScanState, TemplateError>
    decreases end - st.pos, 0int,
{
    let f = find_from(s, p, end, '{');
    if st.pos < p <= f && f < end {
        scan_text(
            s,
            end,
            emit(st, f + 1, head + s.subrange(p, f + 1) + lit_open()),
            true,
            form,
        )
    } else {
        Err(TemplateError::UnterminatedBody)
    }
}

/// A link directive: its arguments run from `p` to `{`, its body from there
/// to the next `}`. (As in `control_body`, only `f < g < end` can fail.)
pub open spec fn link(s: Seq<char>, end: int, st: ScanState, p: int) -> Result<
    ScanState,
    TemplateError,
>
    decreases end - st.pos, 0int,
{
    let f = find_from(s, p, end, '{');
    let g = find_from(s, f + 1, end, '}');
    if !(st.pos < p <= f && f < g && g < end) {
        Err(TemplateError::UnterminatedLink)
    } else {
        let args = split_commas(s.subrange(p, f));
        let segs = link_segments(args);
        if segs.len() == 0 {
            Err(TemplateError::MissingLinkTarget)
        } else {
            let head = emit(st, f + 1, link_open(link_attrs(args), join_segments(segs)) + lit_open());
            match scan_text(s, g, head, false, false) {
                Ok(inner) => Ok(emit(inner, g + 1, lit_close() + link_close())),
                Err(e) => Err(e),
            }
        }
    }
}

} // verus!

verus! {

/// The views of a sequence of character vectors.
pub open spec fn views(v: Seq<Vec<char>>) -> Seq<Seq<char>> {
    v.map_values(|x: Vec<char>| x@)
}

/// `find_from` is `k` where `k` is the first index from `p` that holds `c`.
pub proof fn lemma_find_from_first(s: Seq<char>, p: int, end: int, c: char, k: int)
    requires
        p <= k <= end,
        forall|j: int| p <= j < k ==> s[j] != c,
        k < end ==> s[k] == c,
    ensures
        find_from(s, p, end, c) == k,
    decreases k - p,
{
    if p < k {
        lemma_find_from_first(s, p + 1, end, c, k);
    }
}

/// A piece without commas, followed by a comma, splits off as one argument.
pub proof fn lemma_split_at_comma(a: Seq<char>, rest: Seq<char>)
    requires
        !a.contains(','),
    ensures
        split_commas(a + seq![','] + rest) == seq![a] + split_commas(rest),
{
    let t = a + seq![','] + rest;
    assert forall|j: int| 0 <= j < a.len() implies t[j] != ',' by {
        assert(t[j] == a[j]);
    }
    lemma_find_from_first(t, 0, t.len() as int, ',', a.len() as int);
    assert(t.subrange(0, a.len() as int) =~= a);
    assert(t.subrange(a.len() as int + 1, t.len() as int) =~= rest);
}

/// Text without commas is a single argument.
pub proof fn lemma_split_no_comma(a: Seq<char>)
    requires
        !a.contains(','),
    ensures
        split_commas(a) == seq![a],
{
    assert forall|j: int| 0 <= j < a.len() implies a[j] != ',' by {
        if a[j] == ',' {
            assert(a.contains(','));
        }
    }
    lemma_find_from_first(a, 0, a.len() as int, ',', a.len() as int);
}

} // verus!

verus! {

/// Literal text `s[start..end]` with its directives, as one `_c.push_str`
/// statement chain appended to `out`.
pub open spec fn process_text(
    s: Seq<char>,
    start: int,
    end: int,
    out: Seq<char>,
    blocks: Seq<Seq<char>>,
) -> Result<ScanState, TemplateError> {
    match scan_text(s, end, ScanState { pos: start, out: out + lit_open(), blocks }, false, false) {
        Ok(r) => Ok(emit(r, end, lit_close())),
        Err(e) => Err(e),
    }
}

} // verus!

verus! {

/// Where `block_close` finds an end, a `}` or a line break before a `}` stands there.
pub proof fn lemma_block_close_ends(s: Seq<char>, p: int, end: int, depth: nat, quote: bool)
    requires
        0 <= p <= end <= s.len(),
    ensures
        p <= block_close(s, p, end, depth, quote) <= end,
        block_close(s, p, end, depth, quote) < end ==> ({
            let k = block_close(s, p, end, depth, quote);
            s[k] == '}' || (s[k] == '\n' && k + 1 < end && s[k + 1] == '}')
        }),
    decreases end - p,
{
    if p < end {
        if s[p] == '\\' {
            lemma_block_close_ends(s, if p + 1 < end { p + 2 } else { p + 1 }, end, depth, quote);
        } else if quote {
            lemma_block_close_ends(s, p + 1, end, depth, s[p] != '"');
        } else if s[p] == '{' {
            lemma_block_close_ends(s, p + 1, end, depth + 1, false);
        } else if s[p] == '}' {
            if depth != 0 {
                lemma_block_close_ends(s, p + 1, end, (depth - 1) as nat, false);
            }
        } else if s[p] == '"' {
            lemma_block_close_ends(s, p + 1, end, depth, true);
        } else if s[p] == '\n' && p + 1 < end {
            if s[p + 1] == '}' {
                if depth != 0 {
                    lemma_block_close_ends(s, p + 2, end, (depth - 1) as nat, false);
                }
            } else {
                lemma_block_close_ends(s, p + 2, end, depth, false);
            }
        } else {
            lemma_block_close_ends(s, p + 1, end, depth, false);
        }
    }
}

} // verus!

verus! {

/// `word_end` lies in `[p, end]`.
pub proof fn lemma_word_end_bounds(s: Seq<char>, p: int, end: int)
    requires
        p <= end,
    ensures
        p <= word_end(s, p, end) <= end,
    decreases end - p,
{
    if p < end && !ends_word(s[p]) {
        lemma_word_end_bounds(s, p + 1, end);
    }
}

/// `name_end` lies in `[p, end]`.
pub proof fn lemma_name_end_bounds(s: Seq<char>, p: int, end: int)
    requires
        p <= end,
    ensures
        p <= name_end(s, p, end) <= end,
    decreases end - p,
{
    if p < end && !ends_name(s[p]) {
        lemma_name_end_bounds(s, p + 1, end);
    }
}

/// `expr_close` lies in `[p, end]`.
pub proof fn lemma_expr_close_bounds(s: Seq<char>, p: int, end: int, depth: nat)
    requires
        p <= end,
    ensures
        p <= expr_close(s, p, end, depth) <= end,
    decreases end - p,
{
    if p < end {
        if s[p] == ')' {
            if depth != 0 {
                lemma_expr_close_bounds(s, p + 1, end, (depth - 1) as nat);
            }
        } else if s[p] == '(' {
            lemma_expr_close_bounds(s, p + 1, end, depth + 1);
        } else {
            lemma_expr_close_bounds(s, p + 1, end, depth);
        }
    }
}

/// `code_close` lies in `[p, end]`.
pub proof fn lemma_code_close_bounds(s: Seq<char>, p: int, end: int, depth: nat, quote: bool)
    requires
        p <= end,
    ensures
        p <= code_close(s, p, end, depth, quote) <= end,
    decreases end - p,
{
    if p < end {
        if quote {
            if s[p] == '\\' {
                if p + 1 < end {
                    lemma_code_close_bounds(s, p + 2, end, depth, true);
                }
            } else {
                lemma_code_close_bounds(s, p + 1, end, depth, s[p] != '"');
            }
        } else if s[p] == '}' {
            if depth != 0 {
                lemma_code_close_bounds(s, p + 1, end, (depth - 1) as nat, false);
            }
        } else if s[p] == '{' {
            lemma_code_close_bounds(s, p + 1, end, depth + 1, false);
        } else {
            lemma_code_close_bounds(s, p + 1, end, depth, s[p] == '"');
        }
    }
}

/// `paren_close` lies in `[p, end]`.
pub proof fn lemma_paren_close_bounds(s: Seq<char>, p: int, end: int, depth: nat, quote: bool)
    requires
        p <= end,
    ensures
        p <= paren_close(s, p, end, depth, quote) <= end,
    decreases end - p,
{
    if p < end {
        if quote {
            if s[p] == '\\' {
                if p + 1 < end {
                    lemma_paren_close_bounds(s, p + 2, end, depth, true);
                }
            } else {
                lemma_paren_close_bounds(s, p + 1, end, depth, s[p] != '"');
            }
        } else if s[p] == ')' {
            if depth != 0 {
                lemma_paren_close_bounds(s, p + 1, end, (depth - 1) as nat, false);
            }
        } else if s[p] == '(' {
            lemma_paren_close_bounds(s, p + 1, end, depth + 1, false);
        } else {
            lemma_paren_close_bounds(s, p + 1, end, depth, s[p] == '"');
        }
    }
}

/// A scan that succeeds ends within its window, past its start where it
/// closed a body.
pub proof fn lemma_scan_advances(s: Seq<char>, end: int, st: ScanState, in_body: bool, form: bool)
    requires
        0 <= st.pos <= end <= s.len(),
    ensures
        scan_text(s, end, st, in_body, form) is Ok ==> ({
            let r = scan_text(s, end, st, in_body, form)->Ok_0;
            st.pos <= r.pos <= end && (in_body ==> st.pos < r.pos)
        }),
    decreases end - st.pos, 2int,
{
    if st.pos < end {
        let c = s[st.pos];
        if c == '@' {
            let st1 = emit(st, st.pos + 1, lit_close());
            lemma_directive_advances(s, end, st1);
            match directive(s, end, st1) {
                Ok(next) => {
                    if st.pos < next.pos <= end {
                        lemma_scan_advances(s, end, next, in_body, form);
                    }
                },
                Err(_) => {},
            }
        } else if !(c == '}' && in_body) {
            lemma_scan_advances(s, end, emit(st, st.pos + 1, lit_char(c)), in_body, form);
        }
    }
}

/// A directive that succeeds moves forward and ends within its window.
pub proof fn lemma_directive_advances(s: Seq<char>, end: int, st: ScanState)
    requires
        0 <= st.pos <= end <= s.len(),
    ensures
        directive(s, end, st) is Ok ==> st.pos < directive(s, end, st)->Ok_0.pos <= end,
    decreases end - st.pos, 1int,
{
    if st.pos < end {
        if s[st.pos] == '{' {
            lemma_code_close_bounds(s, st.pos + 1, end, 0, false);
        } else if s[st.pos] == '(' {
            lemma_expr_close_bounds(s, st.pos + 1, end, 0);
        } else {
            let i = word_end(s, st.pos + 1, end);
            lemma_word_end_bounds(s, st.pos + 1, end);
            let word = s.subrange(st.pos, i);
            let extra = if i < end {
                lit_char(s[i])
            } else {
                Seq::empty()
            };
            let p = past(i, end);
            if word == "if"@ || word == "for"@ || word == "loop"@ || word == "while"@ {
                lemma_control_advances(s, end, st, p, word + extra, false);
            } else if word == "build"@ {
                let j = name_end(s, p, end);
                lemma_name_end_bounds(s, p, end);
                if j < end {
                    lemma_control_advances(s, end, st, j, form_head(s.subrange(p, j)), true);
                    lemma_control_advances(
                        s,
                        end,
                        st,
                        j + 1,
                        form_head(s.subrange(p, j)) + seq![' '],
                        true,
                    );
                }
            } else if word == "block"@ || word == "unescape"@ {
                let j = name_end(s, p, end);
                lemma_name_end_bounds(s, p, end);
                if j < end {
                    lemma_block_close_ends(s, j + 1, end, 0, false);
                }
            } else if word == "link"@ {
                lemma_link_advances(s, end, st, p);
            } else {
                lemma_paren_close_bounds(s, p, end, 0, false);
            }
        }
    }
}

/// A control-flow or form directive that succeeds moves forward.
pub proof fn lemma_control_advances(
    s: Seq<char>,
    end: int,
    st: ScanState,
    p: int,
    head: Seq<char>,
    form: bool,
)
    requires
        0 <= st.pos <= end <= s.len(),
        p <= end,
    ensures
        control_body(s, end, st, p, head, form) is Ok ==> st.pos < control_body(
            s,
            end,
            st,
            p,
            head,
            form,
        )->Ok_0.pos <= end,
    decreases end - st.pos, 0int,
{
    let f = find_from(s, p, end, '{');
    if st.pos < p <= f && f < end {
        lemma_scan_advances(s, end, emit(st, f + 1, head + s.subrange(p, f + 1) + lit_open()), true, form);
    }
}

/// A link directive that succeeds moves forward.
pub proof fn lemma_link_advances(s: Seq<char>, end: int, st: ScanState, p: int)
    requires
        0 <= st.pos <= end <= s.len(),
        p <= end,
    ensures
        link(s, end, st, p) is Ok ==> st.pos < link(s, end, st, p)->Ok_0.pos <= end,
    decreases end - st.pos, 0int,
{
    let f = find_from(s, p, end, '{');
    let g = find_from(s, f + 1, end, '}');
    if st.pos < p <= f && f < g && g < end {
        let args = split_commas(s.subrange(p, f));
        let segs = link_segments(args);
        if segs.len() != 0 {
            let head = emit(st, f + 1, link_open(link_attrs(args), join_segments(segs)) + lit_open());
            lemma_scan_advances(s, g, head, false, false);
        }
    }
}

} // verus!
