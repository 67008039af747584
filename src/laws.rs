//! What holds of the transpiler and the build across inputs and calls.

use vstd::prelude::*;
use crate::grammar::{
    block_close, block_ref, directive, emit, ends_name, expr_close, past, ends_word, escaped_expr, find_from, lemma_find_from_first, lit_char,
    lit_close, lit_open, lit_text, name_end, paren_close, process_text, raw_expr, scan_text,
    url_macro, word_end, ScanState, TemplateError,
};
use crate::incremental::stale;
use crate::inherit::{
    args_record, bind_bodies, bind_names, binding_index, buffer_open, buffer_yield,
    extend_code, inherit_blocks, is_space, lemma_space_end_bounds, lemma_space_end_first,
    response_close, space_end, transpiled, trim, Inheritance, base_of, blocks_start, first_token,
};

verus! {

/// The value of a string literal's body whose only escapes are `\"` and
/// `\\`: a backslash stands for the character after it.
pub open spec fn literal_value(code: Seq<char>) -> Seq<char>
    decreases code.len(),
{
    if code.len() == 0 {
        Seq::empty()
    } else if code[0] == '\\' && code.len() >= 2 {
        seq![code[1]] + literal_value(code.subrange(2, code.len() as int))
    } else {
        seq![code[0]] + literal_value(code.drop_first())
    }
}

/// Transpilation depends on the template's text alone: the same text gives
/// the same view and parameter record description, every time.
pub proof fn lemma_transpile_deterministic(a: Seq<char>, b: Seq<char>)
    requires
        a == b,
    ensures
        transpiled(a) == transpiled(b),
{
}

/// A template whose artifact is at least as new as the template and the
/// compiler is left alone by a build that is not forced; touching the
/// template to a later time makes it stale; once regenerated at a time no
/// earlier than that, it is fresh again; a forced build regenerates it.
pub proof fn lemma_staleness_gating(compiler: u128, template: u128, artifact: u128, touched: u128, rewritten: u128)
    requires
        template <= artifact,
        compiler <= artifact,
        touched > artifact,
        rewritten >= touched,
    ensures
        !stale(false, compiler, template, Some(artifact)),
        stale(false, compiler, touched, Some(artifact)),
        !stale(false, compiler, touched, Some(rewritten)),
        stale(true, compiler, template, Some(artifact)),
{
}

/// Literal text with one more character in front.
pub proof fn lemma_lit_text_cons(c: char, rest: Seq<char>)
    ensures
        lit_text(seq![c] + rest) == lit_char(c) + lit_text(rest),
    decreases rest.len(),
{
    if rest.len() == 0 {
        assert(seq![c] + rest =~= seq![c]);
        assert(seq![c].drop_last() =~= Seq::<char>::empty());
        assert(lit_text(seq![c]) == lit_text(Seq::<char>::empty()) + lit_char(c));
        assert(lit_text(seq![c] + rest) =~= lit_char(c) + lit_text(rest));
    } else {
        assert((seq![c] + rest).drop_last() =~= seq![c] + rest.drop_last());
        lemma_lit_text_cons(c, rest.drop_last());
        assert(lit_text(seq![c] + rest) =~= lit_char(c) + lit_text(rest));
    }
}

/// Text without the marker scans to itself as literal text.
pub proof fn lemma_scan_plain(s: Seq<char>, end: int, st: ScanState, form: bool)
    requires
        0 <= st.pos <= end <= s.len(),
        forall|j: int| st.pos <= j < end ==> s[j] != '@',
    ensures
        scan_text(s, end, st, false, form) == Ok::<ScanState, crate::grammar::TemplateError>(
            emit(st, end, lit_text(s.subrange(st.pos, end))),
        ),
    decreases end - st.pos,
{
    if st.pos >= end {
        assert(s.subrange(st.pos, end) =~= Seq::<char>::empty());
        assert(emit(st, end, lit_text(s.subrange(st.pos, end))) =~= st);
    } else {
        let c = s[st.pos];
        let next = emit(st, st.pos + 1, lit_char(c));
        lemma_scan_plain(s, end, next, form);
        assert(s.subrange(st.pos, end) =~= seq![c] + s.subrange(st.pos + 1, end));
        lemma_lit_text_cons(c, s.subrange(st.pos + 1, end));
        assert(emit(next, end, lit_text(s.subrange(st.pos + 1, end))) =~= emit(
            st,
            end,
            lit_text(s.subrange(st.pos, end)),
        ));
    }
}

/// The literal form of text reads back as that text.
pub proof fn lemma_literal_value(t: Seq<char>)
    ensures
        literal_value(lit_text(t)) == t,
    decreases t.len(),
{
    reveal_strlit("\\\"");
    reveal_strlit("\\\\");
    if t.len() > 0 {
        let c = t[0];
        let rest = t.drop_first();
        assert(t =~= seq![c] + rest);
        lemma_lit_text_cons(c, rest);
        lemma_literal_value(rest);
        let code = lit_char(c) + lit_text(rest);
        if c == '"' {
            assert(lit_char(c) =~= seq!['\\', '"']);
        } else if c == '\\' {
            assert(lit_char(c) =~= seq!['\\', '\\']);
        } else {
            assert(lit_char(c) =~= seq![c]);
        }
        if c == '"' || c == '\\' {
            assert(code.subrange(2, code.len() as int) =~= lit_text(rest));
        } else {
            assert(code.drop_first() =~= lit_text(rest));
        }
        assert(literal_value(code) =~= t);
    }
}

/// Literal text containing quotes or backslashes, but no marker, is
/// transpiled into one string literal, which renders exactly that text.
pub proof fn lemma_literal_round_trip(t: Seq<char>)
    requires
        !t.contains('@'),
    ensures
        transpiled(t) == Ok::<(Seq<char>, Option<Seq<char>>), crate::grammar::TemplateError>(
            (buffer_open() + lit_open() + lit_text(t) + lit_close() + response_close(), None),
        ),
        literal_value(lit_text(t)) == t,
{
    reveal_strlit("@extend");
    reveal_strlit("@base_extend");
    let end = t.len() as int;
    let f = space_end(t, 0, end);
    lemma_space_end_bounds(t, 0, end);
    let first = t.subrange(0, f);
    assert("@extend"@[0] == '@' && "@extend"@.len() == 7);
    assert("@base_extend"@[0] == '@' && "@base_extend"@.len() == 12);
    if first == "@extend"@ || first == "@base_extend"@ {
        assert(t[0] == first[0]);
        assert(t.contains('@'));
    }
    assert forall|j: int| 0 <= j < end implies t[j] != '@' by {
        if t[j] == '@' {
            assert(t.contains('@'));
        }
    }
    let st = ScanState { pos: 0, out: buffer_open() + lit_open(), blocks: Seq::empty() };
    lemma_scan_plain(t, end, st, false);
    assert(t.subrange(0, end) =~= t);
    lemma_literal_value(t);
}


/// `word_end` is `k` where `k` is the first index from `p` that ends a word.
pub proof fn lemma_word_end_first(s: Seq<char>, p: int, end: int, k: int)
    requires
        p <= k <= end,
        forall|j: int| p <= j < k ==> !ends_word(s[j]),
        k < end ==> ends_word(s[k]),
    ensures
        word_end(s, p, end) == k,
    decreases k - p,
{
    if p < k {
        lemma_word_end_first(s, p + 1, end, k);
    }
}

/// `name_end` is `k` where `k` is the first index from `p` that ends a name.
pub proof fn lemma_name_end_first(s: Seq<char>, p: int, end: int, k: int)
    requires
        p <= k <= end,
        forall|j: int| p <= j < k ==> !ends_name(s[j]),
        k < end ==> ends_name(s[k]),
    ensures
        name_end(s, p, end) == k,
    decreases k - p,
{
    if p < k {
        lemma_name_end_first(s, p + 1, end, k);
    }
}

/// Names of directives, and of the inheritance declarations that may open
/// a template.
pub open spec fn is_keyword(w: Seq<char>) -> bool {
    w == "if"@ || w == "for"@ || w == "loop"@ || w == "while"@ || w == "build"@ || w == "block"@
        || w == "unescape"@ || w == "link"@ || w == "url!"@ || w == "extend"@ || w
        == "base_extend"@
}

/// A bare expression: a name that is no keyword, does not open a
/// parenthesised expression, and holds no whitespace, brace or other
/// character that ends a word.
pub open spec fn is_bare_name(e: Seq<char>) -> bool {
    &&& e.len() > 0
    &&& forall|j: int|
        0 <= j < e.len() ==> !ends_word(#[trigger] e[j]) && !is_space(e[j]) && e[j] != '{'
    &&& e[0] != '('
    &&& e[0] != '{'
    &&& !is_keyword(e)
}

/// A template whose text is the marker and `e`, followed by a space: a bare
/// expression on its own.
pub open spec fn bare_template(e: Seq<char>) -> Seq<char> {
    "@"@ + e + " "@
}

/// The same expression under the unescape directive.
pub open spec fn unescaped_template(e: Seq<char>) -> Seq<char> {
    "@unescape "@ + e + " "@
}

/// The view of a plain template whose only content is the code `c` between
/// two empty literals.
pub open spec fn plain_view(c: Seq<char>) -> Seq<char> {
    buffer_open() + lit_open() + lit_close() + c + lit_close() + response_close()
}

/// How a template that starts with the marker and a directive is scanned:
/// one directive, whose result reaches the end of the text.
proof fn lemma_single_directive(t: Seq<char>, first_end: int, r: ScanState)
    requires
        t.len() >= 2,
        t[0] == '@',
        first_end == space_end(t, 0, t.len() as int),
        t.subrange(0, first_end) != "@extend"@,
        t.subrange(0, first_end) != "@base_extend"@,
        directive(
            t,
            t.len() as int,
            ScanState { pos: 1, out: buffer_open() + lit_open() + lit_close(), blocks: Seq::empty() },
        ) == Ok::<ScanState, TemplateError>(r),
        r.pos == t.len(),
    ensures
        transpiled(t) == Ok::<(Seq<char>, Option<Seq<char>>), TemplateError>(
            (
                r.out + lit_close() + response_close(),
                if r.blocks.len() > 0 {
                    Some(args_record(r.blocks))
                } else {
                    None
                },
            ),
        ),
{
    let end = t.len() as int;
    let st = ScanState { pos: 0, out: buffer_open() + lit_open(), blocks: Seq::empty() };
    assert(emit(st, 1, lit_close()) == ScanState {
        pos: 1,
        out: buffer_open() + lit_open() + lit_close(),
        blocks: Seq::empty(),
    });
    assert(scan_text(t, end, r, false, false) == Ok::<ScanState, TemplateError>(r));
    assert(scan_text(t, end, st, false, false) == Ok::<ScanState, TemplateError>(r));
}

/// A bare expression is rendered HTML-escaped; the same expression under
/// the unescape directive is rendered as it is.
pub proof fn lemma_escaping_default(e: Seq<char>)
    requires
        is_bare_name(e),
    ensures
        transpiled(bare_template(e)) == Ok::<(Seq<char>, Option<Seq<char>>), TemplateError>(
            (plain_view(escaped_expr(e) + " "@), None),
        ),
        transpiled(unescaped_template(e)) == Ok::<(Seq<char>, Option<Seq<char>>), TemplateError>(
            (plain_view(raw_expr(e) + " "@), None),
        ),
{
    reveal_strlit("@");
    reveal_strlit(" ");
    reveal_strlit("@unescape ");
    reveal_strlit("unescape");
    reveal_strlit("@extend");
    reveal_strlit("@base_extend");
    reveal_strlit("@unescape");
    let n = e.len() as int;
    let st1 = ScanState { pos: 1, out: buffer_open() + lit_open() + lit_close(), blocks: Seq::empty() };
    // The bare expression.
    let t = bare_template(e);
    let end = n + 2;
    assert(t.len() == end);
    assert(forall|j: int| 1 <= j < n + 1 ==> t[j] == e[j - 1]);
    assert(t[n + 1] == ' ');
    assert forall|j: int| 0 <= j < n + 1 implies !is_space(#[trigger] t[j]) by {
        if j > 0 {
            assert(!is_space(e[j - 1]));
        }
    }
    lemma_word_end_first(t, 2, end, n + 1);
    assert(t.subrange(1, n + 1) =~= e);
    assert(lit_char(' ') == seq![' ']);
    assert(" "@ =~= seq![' ']);
    assert(seq![' '] != seq!['(']) by {
        assert(seq![' '][0] != seq!['('][0]);
    }
    let r = emit(st1, end, escaped_expr(e) + seq![' ']);
    assert(directive(t, end, st1) == Ok::<ScanState, TemplateError>(r));
    if t.subrange(0, n + 1) == "@extend"@ {
        assert(t.subrange(0, n + 1).subrange(1, n + 1) =~= t.subrange(1, n + 1));
        assert(t.subrange(1, n + 1) =~= "@extend"@.subrange(1, 7));
        assert("@extend"@.subrange(1, 7) =~= "extend"@) by {
            reveal_strlit("extend");
        }
    }
    if t.subrange(0, n + 1) == "@base_extend"@ {
        assert(t.subrange(0, n + 1).subrange(1, n + 1) =~= t.subrange(1, n + 1));
        assert(t.subrange(1, n + 1) =~= "@base_extend"@.subrange(1, 12));
        assert("@base_extend"@.subrange(1, 12) =~= "base_extend"@) by {
            reveal_strlit("base_extend");
        }
    }
    lemma_space_end_first(t, 0, end, n + 1);
    lemma_single_directive(t, n + 1, r);
    assert(r.out + lit_close() + response_close() =~= plain_view(escaped_expr(e) + " "@));
    // The same expression unescaped.
    let u = unescaped_template(e);
    let uend = n + 11;
    assert(u.len() == uend);
    assert(forall|j: int| 10 <= j < n + 10 ==> u[j] == e[j - 10]);
    assert(u[n + 10] == ' ');
    assert(u[9] == ' ');
    assert(forall|j: int| 0 <= j < 9 ==> !is_space(#[trigger] u[j]));
    assert(forall|j: int| 2 <= j < 9 ==> !ends_word(u[j]));
    lemma_word_end_first(u, 2, uend, 9);
    assert(u.subrange(1, 9) =~= "unescape"@);
    assert forall|j: int| 10 <= j < n + 10 implies !ends_name(u[j]) by {
        assert(!ends_word(e[j - 10]) && e[j - 10] != '{');
    }
    lemma_name_end_first(u, 10, uend, n + 10);
    assert(u.subrange(10, n + 10) =~= e);
    let ru = emit(st1, uend, raw_expr(e) + seq![' ']);
    reveal_strlit("if");
    reveal_strlit("for");
    reveal_strlit("loop");
    reveal_strlit("while");
    reveal_strlit("build");
    reveal_strlit("block");
    assert(directive(u, uend, st1) == Ok::<ScanState, TemplateError>(ru));
    assert(u.subrange(0, 9) =~= "@unescape"@);
    lemma_space_end_first(u, 0, uend, 9);
    lemma_single_directive(u, 9, ru);
    assert(ru.out + lit_close() + response_close() =~= plain_view(raw_expr(e) + " "@));
}


/// Inside a string literal, an argument scan runs to the literal's closing
/// quote whatever stands before it.
pub proof fn lemma_paren_quoted(s: Seq<char>, p: int, end: int, depth: nat, k: int)
    requires
        p <= k < end,
        forall|j: int| p <= j < k ==> s[j] != '"' && s[j] != '\\',
        s[k] == '"',
    ensures
        paren_close(s, p, end, depth, true) == paren_close(s, k + 1, end, depth, false),
    decreases k - p,
{
    if p < k {
        lemma_paren_quoted(s, p + 1, end, depth, k);
    }
}

/// A URL-resolution directive with one string literal argument.
pub open spec fn url_template(q: Seq<char>) -> Seq<char> {
    "@url!(\""@ + q + "\")"@
}

/// A URL-resolution directive whose argument is a string literal takes the
/// literal whole, whatever commas or parentheses it holds, as its argument
/// list, and renders the resolved URL escaped.
pub proof fn lemma_balanced_url_args(q: Seq<char>)
    requires
        forall|j: int| 0 <= j < q.len() ==> q[j] != '"' && q[j] != '\\',
    ensures
        transpiled(url_template(q)) == Ok::<(Seq<char>, Option<Seq<char>>), TemplateError>(
            (plain_view(escaped_expr(url_macro() + "(\""@ + q + "\")"@)), None),
        ),
{
    reveal_strlit("@url!(\"");
    reveal_strlit("\")");
    reveal_strlit("(\"");
    reveal_strlit("url!");
    reveal_strlit("@extend");
    reveal_strlit("@base_extend");
    reveal_strlit("if");
    reveal_strlit("for");
    reveal_strlit("loop");
    reveal_strlit("while");
    reveal_strlit("build");
    reveal_strlit("block");
    reveal_strlit("unescape");
    reveal_strlit("link");
    let n = q.len() as int;
    let t = url_template(q);
    let end = n + 9;
    assert(t.len() == end);
    assert(forall|j: int| 7 <= j < n + 7 ==> t[j] == q[j - 7]);
    assert(t[n + 7] == '"' && t[n + 8] == ')');
    assert(t[5] == '(' && t[6] == '"');
    // The first token is no inheritance declaration.
    assert(space_end(t, 0, end) == space_end(t, 1, end));
    assert(space_end(t, 1, end) == space_end(t, 2, end));
    lemma_space_end_bounds(t, 2, end);
    let f = space_end(t, 0, end);
    let first = t.subrange(0, f);
    assert(first[1] == 'u');
    assert(first != "@extend"@) by {
        if first == "@extend"@ {
            assert("@extend"@[1] == 'e');
        }
    }
    assert(first != "@base_extend"@) by {
        if first == "@base_extend"@ {
            assert("@base_extend"@[1] == 'b');
        }
    }
    // The directive.
    lemma_word_end_first(t, 2, end, 5);
    assert(t.subrange(1, 5) =~= "url!"@);
    assert(lit_char('(') == seq!['(']);
    lemma_paren_quoted(t, 7, end, 0, n + 7);
    assert(paren_close(t, 6, end, 0, false) == paren_close(t, 7, end, 0, true));
    assert(paren_close(t, n + 8, end, 0, false) == n + 8);
    let st1 = ScanState { pos: 1, out: buffer_open() + lit_open() + lit_close(), blocks: Seq::empty() };
    let arg = url_macro() + seq!['('] + t.subrange(6, n + 9);
    assert(arg =~= url_macro() + "(\""@ + q + "\")"@);
    let r = emit(st1, end, escaped_expr(arg));
    assert(paren_close(t, 6, end, 0, false) == n + 8);
    assert(crate::grammar::expression(t, end, st1, 6, url_macro(), seq!['('])
        == Ok::<ScanState, TemplateError>(r));
    assert(word_end(t, 2, end) == 5);
    assert("url!"@ != "loop"@) by {
        assert("url!"@[0] != "loop"@[0]);
    }
    assert("url!"@ != "link"@) by {
        assert("url!"@[0] != "link"@[0]);
    }
    assert(directive(t, end, st1) == Ok::<ScanState, TemplateError>(r));
    lemma_single_directive(t, f, r);
    assert(r.out + lit_close() + response_close() =~= plain_view(escaped_expr(arg)));
}


/// Characters that do not end a block body or change how it is scanned.
pub open spec fn plain_in_block(c: char) -> bool {
    c != '\\' && c != '{' && c != '}' && c != '"' && c != '\n'
}

/// A block body of plain characters ends at the first `}`.
pub proof fn lemma_block_close_plain(s: Seq<char>, p: int, end: int, k: int)
    requires
        0 <= p <= k < end <= s.len(),
        forall|j: int| p <= j < k ==> plain_in_block(s[j]),
        s[k] == '}',
    ensures
        block_close(s, p, end, 0, false) == k,
    decreases k - p,
{
    if p < k {
        lemma_block_close_plain(s, p + 1, end, k);
    }
}

/// An extending template's block section made of one block declaration,
/// `@block name{body}`, that closes the text: the block is bound to its
/// body's code and collection ends.
proof fn lemma_one_block(s: Seq<char>, pos: int, g: int, k: int, blocks: Seq<Seq<char>>, r: ScanState)
    requires
        0 <= pos,
        pos + 7 <= g,
        g + 1 <= k,
        k + 1 == s.len(),
        s[pos] == '@',
        s.subrange(pos + 1, pos + 6) == "block"@,
        s[pos + 6] == ' ',
        forall|j: int| pos + 7 <= j < g ==> !ends_name(#[trigger] s[j]),
        s[g] == '{',
        s[g + 1] != '\n',
        block_close(s, g + 1, s.len() as int, 0, false) == k,
        s[k] == '}',
        process_text(s, g + 1, k, buffer_open(), blocks) == Ok::<ScanState, TemplateError>(r),
    ensures
        inherit_blocks(
            s,
            s.len() as int,
            Inheritance { pos, names: Seq::empty(), bodies: Seq::empty(), blocks },
        ) == Ok::<Inheritance, TemplateError>(
            Inheritance {
                pos: s.len() as int,
                names: seq![s.subrange(pos + 7, g)],
                bodies: seq![r.out + buffer_yield()],
                blocks: r.blocks,
            },
        ),
{
    let end = s.len() as int;
    let name = s.subrange(pos + 7, g);
    lemma_find_from_first(s, pos, end, '@', pos);
    assert forall|j: int| pos + 1 <= j < pos + 6 implies s[j] != ' ' by {
        assert(s[j] == s.subrange(pos + 1, pos + 6)[j - pos - 1]);
        reveal_strlit("block");
    }
    lemma_find_from_first(s, pos + 1, end, ' ', pos + 6);
    lemma_name_end_first(s, pos + 7, end, g);
    lemma_find_from_first(s, g, end, '{', g);
    let empty = Seq::<Seq<char>>::empty();
    assert(binding_index(empty, name, 0) == -1);
    assert(bind_names(empty, name) =~= seq![name]);
    assert(bind_bodies(empty, empty, name, r.out + buffer_yield()) =~= seq![r.out + buffer_yield()]);
    let st2 = Inheritance {
        pos: end,
        names: seq![name],
        bodies: seq![r.out + buffer_yield()],
        blocks: r.blocks,
    };
    assert(find_from(s, end, end, '@') == end);
    assert(find_from(s, end, end, ' ') == end);
    assert(s.subrange(end, end) =~= Seq::<char>::empty());
    reveal_strlit("block");
    assert(s.subrange(end, end) != "block"@);
    assert(inherit_blocks(s, end, st2) == Ok::<Inheritance, TemplateError>(st2));
}

/// The template `@extend base`, then `@block name{body}`.
pub open spec fn child_template(base: Seq<char>, name: Seq<char>, body: Seq<char>) -> Seq<char> {
    "@extend "@ + base + "\n@block "@ + name + "{"@ + body + "}"@
}

/// A base template that declares block `name` with the default body
/// `default`, written `@block name{default}`.
pub open spec fn base_template(name: Seq<char>, default: Seq<char>) -> Seq<char> {
    "@block "@ + name + "{"@ + default + "}"@
}

/// The code that a block body of plain text binds.
pub open spec fn plain_block_code(body: Seq<char>) -> Seq<char> {
    buffer_open() + lit_open() + lit_text(body) + lit_close() + buffer_yield()
}

/// A base that declares `@block name{default}` renders the block from the
/// content its extender supplies, whatever the default says, and declares
/// the block in its parameter record; an extending template's
/// `@block name{body}` binds the block to the code rendering its own body
/// and hands it to the base under the same name.
pub proof fn lemma_inheritance_substitution(
    base: Seq<char>,
    name: Seq<char>,
    default: Seq<char>,
    body: Seq<char>,
)
    requires
        forall|j: int| 0 <= j < base.len() ==> base[j] != '\n',
        forall|j: int| 0 <= j < name.len() ==> !ends_name(#[trigger] name[j]),
        forall|j: int| 0 <= j < default.len() ==> plain_in_block(#[trigger] default[j]),
        forall|j: int| 0 <= j < body.len() ==> plain_in_block(#[trigger] body[j]) && body[j] != '@',
    ensures
        transpiled(base_template(name, default)) == Ok::<
            (Seq<char>, Option<Seq<char>>),
            TemplateError,
        >((plain_view(block_ref(name)), Some(args_record(seq![name])))),
        transpiled(child_template(base, name, body)) == Ok::<
            (Seq<char>, Option<Seq<char>>),
            TemplateError,
        >((extend_code(trim(base), seq![name], seq![plain_block_code(body)]), None)),
{
    lemma_base_renders_slot(name, default);
    lemma_child_binds_block(base, name, body);
}

/// The base side of `lemma_inheritance_substitution`.
proof fn lemma_base_renders_slot(name: Seq<char>, default: Seq<char>)
    requires
        forall|j: int| 0 <= j < name.len() ==> !ends_name(#[trigger] name[j]),
        forall|j: int| 0 <= j < default.len() ==> plain_in_block(#[trigger] default[j]),
    ensures
        transpiled(base_template(name, default)) == Ok::<
            (Seq<char>, Option<Seq<char>>),
            TemplateError,
        >((plain_view(block_ref(name)), Some(args_record(seq![name])))),
{
    reveal_strlit("@block ");
    reveal_strlit("block");
    reveal_strlit("{");
    reveal_strlit("}");
    reveal_strlit("@extend");
    reveal_strlit("@base_extend");
    reveal_strlit("if");
    reveal_strlit("for");
    reveal_strlit("loop");
    reveal_strlit("while");
    reveal_strlit("build");
    let nn = name.len() as int;
    let nd = default.len() as int;
    let b = base_template(name, default);
    let j = nn + 7;
    let k = j + 1 + nd;
    let bend = k + 1;
    assert(b.len() == bend);
    assert(forall|i: int| 7 <= i < j ==> b[i] == name[i - 7]);
    assert(b[j] == '{');
    assert(forall|i: int| j + 1 <= i < k ==> b[i] == default[i - j - 1]);
    assert(b[k] == '}');
    assert(forall|i: int| 0 <= i < 6 ==> !is_space(#[trigger] b[i]));
    assert(is_space(b[6]));
    lemma_space_end_first(b, 0, bend, 6);
    assert(b.subrange(0, 6).len() == 6);
    assert("@extend"@.len() == 7 && "@base_extend"@.len() == 12);
    lemma_word_end_first(b, 2, bend, 6);
    assert(b.subrange(1, 6) =~= "block"@);
    assert("block"@ != "build"@) by {
        assert("block"@[1] != "build"@[1]);
    }
    assert("block"@ != "while"@) by {
        assert("block"@[0] != "while"@[0]);
    }
    assert forall|i: int| 7 <= i < j implies !ends_name(b[i]) by {
        assert(!ends_name(name[i - 7]));
    }
    lemma_name_end_first(b, 7, bend, j);
    assert(b.subrange(7, j) =~= name);
    assert forall|i: int| j + 1 <= i < k implies plain_in_block(b[i]) by {
        assert(plain_in_block(default[i - j - 1]));
    }
    lemma_block_close_plain(b, j + 1, bend, k);
    let st1 = ScanState { pos: 1, out: buffer_open() + lit_open() + lit_close(), blocks: Seq::empty() };
    let rb = ScanState { pos: bend, out: st1.out + block_ref(name), blocks: seq![name] };
    assert(Seq::<Seq<char>>::empty().push(name) =~= seq![name]);
    assert(directive(b, bend, st1) == Ok::<ScanState, TemplateError>(rb));
    lemma_single_directive(b, 6, rb);
    assert(rb.out + lit_close() + response_close() =~= plain_view(block_ref(name)));
}

/// The child side of `lemma_inheritance_substitution`.
proof fn lemma_child_binds_block(base: Seq<char>, name: Seq<char>, body: Seq<char>)
    requires
        forall|j: int| 0 <= j < base.len() ==> base[j] != '\n',
        forall|j: int| 0 <= j < name.len() ==> !ends_name(#[trigger] name[j]),
        forall|j: int| 0 <= j < body.len() ==> plain_in_block(#[trigger] body[j]) && body[j] != '@',
    ensures
        transpiled(child_template(base, name, body)) == Ok::<
            (Seq<char>, Option<Seq<char>>),
            TemplateError,
        >((extend_code(trim(base), seq![name], seq![plain_block_code(body)]), None)),
{
    reveal_strlit("@extend ");
    reveal_strlit("@extend");
    reveal_strlit("@base_extend");
    reveal_strlit("\n@block ");
    reveal_strlit("{");
    reveal_strlit("}");
    reveal_strlit("block");
    let nb = base.len() as int;
    let nn = name.len() as int;
    let nd = body.len() as int;
    let c = child_template(base, name, body);
    let h = 8 + nb;
    let pos = h + 1;
    let g = pos + 7 + nn;
    let k = g + 1 + nd;
    let end = k + 1;
    assert(c.len() == end);
    assert(forall|j: int| 8 <= j < h ==> c[j] == base[j - 8]);
    assert(c[h] == '\n');
    assert(c[pos] == '@');
    assert(c.subrange(pos + 1, pos + 6) =~= "block"@);
    assert(c[pos + 6] == ' ');
    assert(forall|j: int| pos + 7 <= j < g ==> c[j] == name[j - pos - 7]);
    assert(c[g] == '{');
    assert(forall|j: int| g + 1 <= j < k ==> c[j] == body[j - g - 1]);
    assert(c[k] == '}');
    assert(forall|j: int| 0 <= j < 7 ==> !is_space(#[trigger] c[j]));
    assert(is_space(c[7]));
    lemma_space_end_first(c, 0, end, 7);
    assert(c.subrange(0, 7) =~= "@extend"@);
    assert forall|j: int| 8 <= j < h implies c[j] != '\n' by {
        assert(base[j - 8] != '\n');
    }
    lemma_find_from_first(c, 8, end, '\n', h);
    assert(c.subrange(8, h) =~= base);
    assert forall|j: int| pos + 7 <= j < g implies !ends_name(c[j]) by {
        assert(!ends_name(name[j - pos - 7]));
    }
    assert forall|j: int| g + 1 <= j < k implies plain_in_block(c[j]) && c[j] != '@' by {
        assert(plain_in_block(body[j - g - 1]));
    }
    lemma_block_close_plain(c, g + 1, end, k);
    let sb = ScanState { pos: g + 1, out: buffer_open() + lit_open(), blocks: Seq::empty() };
    lemma_scan_plain(c, k, sb, false);
    assert(c.subrange(g + 1, k) =~= body);
    let rb2 = emit(emit(sb, k, lit_text(body)), k, lit_close());
    assert(process_text(c, g + 1, k, buffer_open(), Seq::empty()) == Ok::<ScanState, TemplateError>(rb2));
    assert(c.subrange(pos + 7, g) =~= name);
    lemma_one_block(c, pos, g, k, Seq::empty(), rb2);
    assert(rb2.out + buffer_yield() =~= plain_block_code(body));
}

/// The template `@base_extend base`, then the block `name`, whose body
/// declares the block `inner` for this template's own extenders.
pub open spec fn chained_template(base: Seq<char>, name: Seq<char>, inner: Seq<char>) -> Seq<char> {
    "@base_extend "@ + base + "\n@block "@ + name + "{@block "@ + inner + " }"@
}

/// The code that block `name` of a chained base binds: it renders its own
/// extender's block `inner`.
pub open spec fn chained_block_code(inner: Seq<char>) -> Seq<char> {
    buffer_open() + lit_open() + lit_close() + block_ref(inner) + " "@ + lit_close() + buffer_yield()
}

/// A template that both extends a base and is extended supplies its base's
/// block and describes, in its own parameter record, the block it declares
/// for its extenders.
pub proof fn lemma_multi_level_inheritance(base: Seq<char>, name: Seq<char>, inner: Seq<char>)
    requires
        forall|j: int| 0 <= j < base.len() ==> base[j] != '\n',
        forall|j: int| 0 <= j < name.len() ==> !ends_name(#[trigger] name[j]),
        forall|j: int|
            0 <= j < inner.len() ==> plain_in_block(#[trigger] inner[j]) && !ends_name(inner[j]),
    ensures
        transpiled(chained_template(base, name, inner)) == Ok::<
            (Seq<char>, Option<Seq<char>>),
            TemplateError,
        >(
            (
                extend_code(trim(base), seq![name], seq![chained_block_code(inner)]),
                Some(args_record(seq![inner])),
            ),
        ),
{
    reveal_strlit("@base_extend ");
    reveal_strlit("@base_extend");
    reveal_strlit("@extend");
    reveal_strlit("\n@block ");
    reveal_strlit("{@block ");
    reveal_strlit(" }");
    reveal_strlit("block");
    reveal_strlit(" ");
    reveal_strlit("if");
    reveal_strlit("for");
    reveal_strlit("loop");
    reveal_strlit("while");
    reveal_strlit("build");
    let nb = base.len() as int;
    let nn = name.len() as int;
    let ni = inner.len() as int;
    let c = chained_template(base, name, inner);
    let h = 13 + nb;
    let pos = h + 1;
    let g = pos + 7 + nn;
    let a = g + 1;
    let k = a + 8 + ni;
    let end = k + 1;
    assert(c.len() == end);
    assert(forall|j: int| 13 <= j < h ==> c[j] == base[j - 13]);
    assert(c[h] == '\n');
    assert(c[pos] == '@');
    assert(c.subrange(pos + 1, pos + 6) =~= "block"@);
    assert(c[pos + 6] == ' ');
    assert(forall|j: int| pos + 7 <= j < g ==> c[j] == name[j - pos - 7]);
    assert(c[g] == '{');
    assert(c[a] == '@');
    assert(c.subrange(a + 1, a + 6) =~= "block"@);
    assert(c[a + 6] == ' ');
    assert(forall|j: int| a + 7 <= j < k - 1 ==> c[j] == inner[j - a - 7]);
    assert(c[k - 1] == ' ');
    assert(c[k] == '}');
    // The first line.
    assert(forall|j: int| 0 <= j < 12 ==> !is_space(#[trigger] c[j]));
    assert(is_space(c[12]));
    lemma_space_end_first(c, 0, end, 12);
    assert(c.subrange(0, 12) =~= "@base_extend"@);
    assert(c.subrange(0, 12) != "@extend"@);
    assert forall|j: int| 13 <= j < h implies c[j] != '\n' by {
        assert(base[j - 13] != '\n');
    }
    lemma_find_from_first(c, 13, end, '\n', h);
    assert(c.subrange(13, h) =~= base);
    assert forall|j: int| pos + 7 <= j < g implies !ends_name(c[j]) by {
        assert(!ends_name(name[j - pos - 7]));
    }
    assert(c.subrange(pos + 7, g) =~= name);
    // The outer block's body closes at the last brace.
    assert forall|j: int| a <= j < k implies plain_in_block(c[j]) by {
        if a + 7 <= j < k - 1 {
            assert(plain_in_block(inner[j - a - 7]));
        } else if a < j < a + 6 {
            assert(c[j] == c.subrange(a + 1, a + 6)[j - a - 1]);
        }
    }
    lemma_block_close_plain(c, a, end, k);
    // The inner block directive, scanned in the window of the outer body.
    assert forall|j: int| a + 2 <= j < a + 6 implies !ends_word(c[j]) by {
        assert(c[j] == c.subrange(a + 1, a + 6)[j - a - 1]);
    }
    lemma_word_end_first(c, a + 2, k, a + 6);
    assert("block"@ != "build"@) by {
        assert("block"@[1] != "build"@[1]);
    }
    assert("block"@ != "while"@) by {
        assert("block"@[0] != "while"@[0]);
    }
    assert forall|j: int| a + 7 <= j < k - 1 implies !ends_name(c[j]) by {
        assert(!ends_name(inner[j - a - 7]));
    }
    lemma_name_end_first(c, a + 7, k, k - 1);
    assert(c.subrange(a + 7, k - 1) =~= inner);
    let s0 = ScanState { pos: a, out: buffer_open() + lit_open(), blocks: Seq::empty() };
    let s1 = emit(s0, a + 1, lit_close());
    let s2 = ScanState { pos: k, out: s1.out + block_ref(inner) + seq![' '], blocks: seq![inner] };
    assert(Seq::<Seq<char>>::empty().push(inner) =~= seq![inner]);
    assert(directive(c, k, s1) == Ok::<ScanState, TemplateError>(s2));
    assert(scan_text(c, k, s2, false, false) == Ok::<ScanState, TemplateError>(s2));
    assert(scan_text(c, k, s0, false, false) == Ok::<ScanState, TemplateError>(s2));
    let r = emit(s2, k, lit_close());
    assert(process_text(c, a, k, buffer_open(), Seq::empty()) == Ok::<ScanState, TemplateError>(r));
    lemma_one_block(c, pos, g, k, Seq::empty(), r);
    assert(" "@ =~= seq![' ']);
    assert(r.out + buffer_yield() =~= chained_block_code(inner));
}

/// A chained base, a template whose first token is `@base_extend`, always
/// comes with a parameter record when it transpiles: one field for each
/// block that its bodies declare for its own extenders, in order, and no
/// field where they declare none. Its view binds every block it supplies
/// and hands them all to its own base.
pub proof fn lemma_chained_base_record(t: Seq<char>)
    requires
        first_token(t) == "@base_extend"@,
        inherit_blocks(t, t.len() as int, blocks_start(t)) is Ok,
    ensures
        ({
            let st = inherit_blocks(t, t.len() as int, blocks_start(t))->Ok_0;
            transpiled(t) == Ok::<(Seq<char>, Option<Seq<char>>), TemplateError>(
                (extend_code(base_of(t), st.names, st.bodies), Some(args_record(st.blocks))),
            )
        }),
{
}

/// Marker-free text up to `m` scans to itself as literal text, and the scan
/// goes on from `m`.
pub proof fn lemma_scan_plain_until(s: Seq<char>, end: int, st: ScanState, m: int, form: bool)
    requires
        0 <= st.pos <= m <= end <= s.len(),
        forall|j: int| st.pos <= j < m ==> s[j] != '@',
    ensures
        scan_text(s, end, st, false, form) == scan_text(
            s,
            end,
            emit(st, m, lit_text(s.subrange(st.pos, m))),
            false,
            form,
        ),
    decreases m - st.pos,
{
    if st.pos >= m {
        assert(s.subrange(st.pos, m) =~= Seq::<char>::empty());
        assert(emit(st, m, lit_text(s.subrange(st.pos, m))) =~= st);
    } else {
        let c = s[st.pos];
        let next = emit(st, st.pos + 1, lit_char(c));
        lemma_scan_plain_until(s, end, next, m, form);
        assert(s.subrange(st.pos, m) =~= seq![c] + s.subrange(st.pos + 1, m));
        lemma_lit_text_cons(c, s.subrange(st.pos + 1, m));
        assert(emit(next, m, lit_text(s.subrange(st.pos + 1, m))) =~= emit(
            st,
            m,
            lit_text(s.subrange(st.pos, m)),
        ));
    }
}

/// Text between the literal parts `pre` and `suf` that hold no marker.
pub open spec fn in_context(pre: Seq<char>, middle: Seq<char>, suf: Seq<char>) -> Seq<char> {
    pre + middle + suf
}

/// The view of a plain template whose code `c` stands between the literal
/// texts `pre` and `suf`.
pub open spec fn view_in_context(pre: Seq<char>, c: Seq<char>, suf: Seq<char>) -> Seq<char> {
    buffer_open() + lit_open() + lit_text(pre) + lit_close() + c + lit_text(suf) + lit_close()
        + response_close()
}

/// A template made of marker-free text, one directive at `m` whose result
/// `r` resumes at `q`, and marker-free text after it.
proof fn lemma_directive_in_context(t: Seq<char>, m: int, q: int, r: ScanState)
    requires
        0 <= m < q <= t.len(),
        t[m] == '@',
        forall|j: int| 0 <= j < m ==> t[j] != '@',
        forall|j: int| q <= j < t.len() ==> t[j] != '@',
        first_token(t) != "@extend"@,
        first_token(t) != "@base_extend"@,
        directive(
            t,
            t.len() as int,
            ScanState {
                pos: m + 1,
                out: buffer_open() + lit_open() + lit_text(t.subrange(0, m)) + lit_close(),
                blocks: Seq::empty(),
            },
        ) == Ok::<ScanState, TemplateError>(r),
        r.pos == q,
        r.blocks.len() == 0,
    ensures
        transpiled(t) == Ok::<(Seq<char>, Option<Seq<char>>), TemplateError>(
            (r.out + lit_text(t.subrange(q, t.len() as int)) + lit_close() + response_close(), None),
        ),
{
    let end = t.len() as int;
    let st0 = ScanState { pos: 0, out: buffer_open() + lit_open(), blocks: Seq::empty() };
    lemma_scan_plain_until(t, end, st0, m, false);
    let stm = emit(st0, m, lit_text(t.subrange(0, m)));
    assert(emit(stm, m + 1, lit_close()) == ScanState {
        pos: m + 1,
        out: buffer_open() + lit_open() + lit_text(t.subrange(0, m)) + lit_close(),
        blocks: Seq::<Seq<char>>::empty(),
    });
    assert(scan_text(t, end, stm, false, false) == scan_text(t, end, r, false, false));
    lemma_scan_plain(t, end, r, false);
}

/// A bare expression anywhere in literal text is rendered HTML-escaped, and
/// the same expression under the unescape directive is rendered as it is,
/// whatever marker-free text stands around it.
pub proof fn lemma_escaping_in_context(pre: Seq<char>, e: Seq<char>, c: char, suf: Seq<char>)
    requires
        is_bare_name(e),
        c == ' ' || c == '\n',
        !pre.contains('@'),
        !suf.contains('@'),
    ensures
        transpiled(in_context(pre, "@"@ + e + seq![c], suf)) == Ok::<
            (Seq<char>, Option<Seq<char>>),
            TemplateError,
        >((view_in_context(pre, escaped_expr(e) + seq![c], suf), None)),
        transpiled(in_context(pre, "@unescape "@ + e + seq![c], suf)) == Ok::<
            (Seq<char>, Option<Seq<char>>),
            TemplateError,
        >((view_in_context(pre, raw_expr(e) + seq![c], suf), None)),
{
    lemma_bare_in_context(pre, e, c, suf);
    lemma_unescape_in_context(pre, e, c, suf);
}

/// The first token of a template whose literal prefix `pre` holds no marker,
/// followed by the marker, is no inheritance declaration where the word after
/// the marker is not one.
proof fn lemma_first_token_in_context(t: Seq<char>, m: int, w: int)
    requires
        0 <= m < w < t.len(),
        forall|j: int| 0 <= j < m ==> t[j] != '@',
        t[m] == '@',
        forall|j: int| m < j < w ==> !is_space(#[trigger] t[j]),
        is_space(t[w]),
        m == 0 ==> t.subrange(0, w) != "@extend"@ && t.subrange(0, w) != "@base_extend"@,
    ensures
        first_token(t) != "@extend"@,
        first_token(t) != "@base_extend"@,
{
    reveal_strlit("@extend");
    reveal_strlit("@base_extend");
    let end = t.len() as int;
    lemma_space_end_bounds(t, 0, end);
    let f = space_end(t, 0, end);
    if m == 0 {
        assert(!is_space(t[0]));
        lemma_space_end_first(t, 0, end, w);
    } else {
        if first_token(t) == "@extend"@ || first_token(t) == "@base_extend"@ {
            assert(first_token(t).len() == f);
            assert(f > 0);
            assert(first_token(t)[0] == '@');
            assert(t[0] == first_token(t)[0]);
            assert(t[0] != '@');
        }
    }
}

proof fn lemma_bare_in_context(pre: Seq<char>, e: Seq<char>, c: char, suf: Seq<char>)
    requires
        is_bare_name(e),
        c == ' ' || c == '\n',
        !pre.contains('@'),
        !suf.contains('@'),
    ensures
        transpiled(in_context(pre, "@"@ + e + seq![c], suf)) == Ok::<
            (Seq<char>, Option<Seq<char>>),
            TemplateError,
        >((view_in_context(pre, escaped_expr(e) + seq![c], suf), None)),
{
    reveal_strlit("@");
    reveal_strlit("extend");
    reveal_strlit("base_extend");
    reveal_strlit("@extend");
    reveal_strlit("@base_extend");
    let m = pre.len() as int;
    let n = e.len() as int;
    let t = in_context(pre, "@"@ + e + seq![c], suf);
    let end = t.len() as int;
    let w = m + 1 + n;
    let q = w + 1;
    assert(end == q + suf.len());
    assert(forall|j: int| 0 <= j < m ==> t[j] == pre[j]);
    assert(t[m] == '@');
    assert(forall|j: int| m + 1 <= j < w ==> t[j] == e[j - m - 1]);
    assert(t[w] == c);
    assert(forall|j: int| q <= j < end ==> t[j] == suf[j - q]);
    assert forall|j: int| 0 <= j < m implies t[j] != '@' by {
        if pre[j] == '@' {
            assert(pre.contains('@'));
        }
    }
    assert forall|j: int| q <= j < end implies t[j] != '@' by {
        if suf[j - q] == '@' {
            assert(suf.contains('@'));
        }
    }
    assert forall|j: int| m < j < w implies !is_space(#[trigger] t[j]) && !ends_word(t[j]) by {
        assert(!is_space(e[j - m - 1]) && !ends_word(e[j - m - 1]));
    }
    if m == 0 {
        assert(t.subrange(0, w) =~= "@"@ + e);
        if t.subrange(0, w) == "@extend"@ {
            assert(e =~= "@extend"@.subrange(1, 7));
            assert("@extend"@.subrange(1, 7) =~= "extend"@);
        }
        if t.subrange(0, w) == "@base_extend"@ {
            assert(e =~= "@base_extend"@.subrange(1, 12));
            assert("@base_extend"@.subrange(1, 12) =~= "base_extend"@);
        }
    }
    lemma_first_token_in_context(t, m, w);
    lemma_word_end_first(t, m + 2, end, w);
    assert(t.subrange(m + 1, w) =~= e);
    assert(lit_char(c) == seq![c]);
    assert(seq![c] != seq!['(']) by {
        assert(seq![c][0] != seq!['('][0]);
    }
    let st1 = ScanState {
        pos: m + 1,
        out: buffer_open() + lit_open() + lit_text(t.subrange(0, m)) + lit_close(),
        blocks: Seq::empty(),
    };
    let r = emit(st1, q, escaped_expr(e) + seq![c]);
    assert(directive(t, end, st1) == Ok::<ScanState, TemplateError>(r));
    lemma_directive_in_context(t, m, q, r);
    assert(t.subrange(0, m) =~= pre);
    assert(t.subrange(q, end) =~= suf);
    assert(r.out + lit_text(t.subrange(q, end)) + lit_close() + response_close() =~= view_in_context(
        pre,
        escaped_expr(e) + seq![c],
        suf,
    ));
}

proof fn lemma_unescape_in_context(pre: Seq<char>, e: Seq<char>, c: char, suf: Seq<char>)
    requires
        is_bare_name(e),
        c == ' ' || c == '\n',
        !pre.contains('@'),
        !suf.contains('@'),
    ensures
        transpiled(in_context(pre, "@unescape "@ + e + seq![c], suf)) == Ok::<
            (Seq<char>, Option<Seq<char>>),
            TemplateError,
        >((view_in_context(pre, raw_expr(e) + seq![c], suf), None)),
{
    reveal_strlit("@unescape ");
    reveal_strlit("@unescape");
    reveal_strlit("unescape");
    reveal_strlit("@extend");
    reveal_strlit("@base_extend");
    reveal_strlit("if");
    reveal_strlit("for");
    reveal_strlit("loop");
    reveal_strlit("while");
    reveal_strlit("build");
    reveal_strlit("block");
    let m = pre.len() as int;
    let n = e.len() as int;
    let t = in_context(pre, "@unescape "@ + e + seq![c], suf);
    let end = t.len() as int;
    let j = m + 10 + n;
    let q = j + 1;
    assert(end == q + suf.len());
    assert(forall|i: int| 0 <= i < m ==> t[i] == pre[i]);
    assert(t[m] == '@');
    assert(t.subrange(m + 1, m + 9) =~= "unescape"@);
    assert(t[m + 9] == ' ');
    assert(forall|i: int| m + 10 <= i < j ==> t[i] == e[i - m - 10]);
    assert(t[j] == c);
    assert(forall|i: int| q <= i < end ==> t[i] == suf[i - q]);
    assert forall|i: int| 0 <= i < m implies t[i] != '@' by {
        if pre[i] == '@' {
            assert(pre.contains('@'));
        }
    }
    assert forall|i: int| q <= i < end implies t[i] != '@' by {
        if suf[i - q] == '@' {
            assert(suf.contains('@'));
        }
    }
    assert forall|i: int| m < i < m + 9 implies !is_space(#[trigger] t[i]) && !ends_word(t[i]) by {
        assert(t[i] == t.subrange(m + 1, m + 9)[i - m - 1]);
    }
    if m == 0 {
        assert(t.subrange(0, m + 9) =~= "@unescape"@);
    }
    lemma_first_token_in_context(t, m, m + 9);
    lemma_word_end_first(t, m + 2, end, m + 9);
    assert forall|i: int| m + 10 <= i < j implies !ends_name(t[i]) by {
        assert(!ends_word(e[i - m - 10]) && e[i - m - 10] != '{');
    }
    lemma_name_end_first(t, m + 10, end, j);
    assert(t.subrange(m + 10, j) =~= e);
    let st1 = ScanState {
        pos: m + 1,
        out: buffer_open() + lit_open() + lit_text(t.subrange(0, m)) + lit_close(),
        blocks: Seq::empty(),
    };
    let r = emit(st1, q, raw_expr(e) + seq![c]);
    assert(directive(t, end, st1) == Ok::<ScanState, TemplateError>(r));
    lemma_directive_in_context(t, m, q, r);
    assert(t.subrange(0, m) =~= pre);
    assert(t.subrange(q, end) =~= suf);
    assert(r.out + lit_text(t.subrange(q, end)) + lit_close() + response_close() =~= view_in_context(
        pre,
        raw_expr(e) + seq![c],
        suf,
    ));
}

/// Names of the directives that are no interpolation of their own.
pub open spec fn is_directive_word(w: Seq<char>) -> bool {
    w == "if"@ || w == "for"@ || w == "loop"@ || w == "while"@ || w == "build"@ || w == "block"@
        || w == "unescape"@ || w == "link"@
}

/// Every interpolation that the unescape directive does not mark (a bare
/// name, a call, `url!`, a parenthesised expression) is rendered through the
/// HTML escape, followed at most by the character that ended its name.
pub proof fn lemma_interpolation_escaped(s: Seq<char>, end: int, st: ScanState)
    requires
        0 <= st.pos < end <= s.len(),
        s[st.pos] != '{',
        s[st.pos] == '(' || !is_directive_word(s.subrange(st.pos, word_end(s, st.pos + 1, end))),
        directive(s, end, st) is Ok,
    ensures
        exists|x: Seq<char>, y: Seq<char>|
            directive(s, end, st)->Ok_0.out == st.out + escaped_expr(x) + y && (y.len() == 0 || y
                == lit_char(s[word_end(s, st.pos + 1, end)])),
{
    let r = directive(s, end, st)->Ok_0;
    if s[st.pos] == '(' {
        let i = expr_close(s, st.pos + 1, end, 0);
        let x = s.subrange(st.pos + 1, i);
        let y = Seq::<char>::empty();
        assert(r.out =~= st.out + escaped_expr(x) + y);
    } else {
        let i = word_end(s, st.pos + 1, end);
        let word = s.subrange(st.pos, i);
        let extra = if i < end {
            lit_char(s[i])
        } else {
            Seq::empty()
        };
        let p = past(i, end);
        let e = if word == "url!"@ {
            url_macro()
        } else {
            word
        };
        if extra == seq!['('] {
            let k = paren_close(s, p, end, 0, false);
            let x = e + seq!['('] + s.subrange(p, k + 1);
            let y = Seq::<char>::empty();
            assert(r.out =~= st.out + escaped_expr(x) + y);
        } else {
            assert(r.out =~= st.out + escaped_expr(e) + extra);
        }
    }
}

} // verus!
