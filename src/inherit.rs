//! What a whole template transpiles to: a plain template becomes one
//! response-building expression; an extending template becomes bindings of
//! its blocks and a call of its base's view.

use vstd::prelude::*;
use crate::grammar::{block_close, find_from, name_end, past, process_text, TemplateError};

verus! {

/// Whether `char::is_whitespace` holds of `c` (the Unicode White_Space set).
pub open spec fn is_space(c: char) -> bool {
    let u = c as u32;
    (9 <= u <= 13) || u == 32 || u == 0x85 || u == 0xa0 || u == 0x1680 || (0x2000 <= u <= 0x200a)
        || u == 0x2028 || u == 0x2029 || u == 0x202f || u == 0x205f || u == 0x3000
}

/// The first index in `[p, end)` that holds whitespace, or `end`.
pub open spec fn space_end(s: Seq<char>, p: int, end: int) -> int
    decreases end - p,
{
    if p >= end {
        end
    } else if is_space(s[p]) {
        p
    } else {
        space_end(s, p + 1, end)
    }
}

/// `t` without its leading whitespace.
pub open spec fn trim_front(t: Seq<char>) -> Seq<char>
    decreases t.len(),
{
    if t.len() > 0 && is_space(t[0]) {
        trim_front(t.drop_first())
    } else {
        t
    }
}

/// `t` without its trailing whitespace.
pub open spec fn trim_back(t: Seq<char>) -> Seq<char>
    decreases t.len(),
{
    if t.len() > 0 && is_space(t.last()) {
        trim_back(t.drop_last())
    } else {
        t
    }
}

/// `t` without leading and trailing whitespace.
pub open spec fn trim(t: Seq<char>) -> Seq<char> {
    trim_back(trim_front(t))
}

/// The first index from `i` at which `names` holds `name`, or -1.
pub open spec fn binding_index(names: Seq<Seq<char>>, name: Seq<char>, i: int) -> int
    decreases names.len() - i,
{
    if i < 0 || i >= names.len() {
        -1
    } else if names[i] == name {
        i
    } else {
        binding_index(names, name, i + 1)
    }
}

/// The block names after binding `name`: a new name is added at the end.
pub open spec fn bind_names(names: Seq<Seq<char>>, name: Seq<char>) -> Seq<Seq<char>> {
    if binding_index(names, name, 0) < 0 {
        names.push(name)
    } else {
        names
    }
}

/// The block bodies after binding `name` to `body`: a name bound before
/// gets the new body in place.
pub open spec fn bind_bodies(names: Seq<Seq<char>>, bodies: Seq<Seq<char>>, name: Seq<char>, body: Seq<
    char,
>) -> Seq<Seq<char>> {
    let i = binding_index(names, name, 0);
    if i < 0 {
        bodies.push(body)
    } else {
        bodies.update(i, body)
    }
}

/// Where the collection of an extending template's blocks stands: the read
/// position, the blocks bound so far (names and bodies, in parallel), and the
/// blocks that the bodies themselves declare.
#[verifier::ext_equal]
pub struct Inheritance {
    pub pos: int,
    pub names: Seq<Seq<char>>,
    pub bodies: Seq<Seq<char>>,
    pub blocks: Seq<Seq<char>>,
}

/// Opens a block of code with its own output buffer.
pub open spec fn buffer_open() -> Seq<char> {
    "{let mut _c = String::new();"@
}

/// Yields a buffer opened by `buffer_open`.
pub open spec fn buffer_yield() -> Seq<char> {
    " _c}"@
}

/// Collects the `@block name{body}` declarations (a space may stand before
/// the brace) from `st.pos`; the first
/// directive that is not a block ends the collection. (A body always starts
/// past `st.pos` and its end `k` never lies before its start, so the tests
/// on `b0 <= k` and on `next` only make the recursion's measure visible.)
pub open spec fn inherit_blocks(s: Seq<char>, end: int, st: Inheritance) -> Result<
    Inheritance,
    TemplateError,
>
    decreases end - st.pos,
{
    let word_start = past(find_from(s, st.pos, end, '@'), end);
    let f = find_from(s, word_start, end, ' ');
    if s.subrange(word_start, f) != "block"@ {
        Ok(st)
    } else {
        let name_start = past(f, end);
        let g = name_end(s, name_start, end);
        let name = s.subrange(name_start, g);
        let brace_end = past(find_from(s, g, end, '{'), end);
        let b0 = if brace_end < end && s[brace_end] == '\n' {
            brace_end + 1
        } else {
            brace_end
        };
        let k = block_close(s, b0, end, 0, false);
        if !(b0 <= k < end) {
            Err(TemplateError::UnterminatedBlock)
        } else {
            match process_text(s, b0, k, buffer_open(), st.blocks) {
                Err(e) => Err(e),
                Ok(body) => {
                    let next = if s[k] == '}' {
                        k + 1
                    } else {
                        k + 2
                    };
                    let st2 = Inheritance {
                        pos: next,
                        names: bind_names(st.names, name),
                        bodies: bind_bodies(st.names, st.bodies, name, body.out + buffer_yield()),
                        blocks: body.blocks,
                    };
                    if st.pos < next <= end {
                        inherit_blocks(s, end, st2)
                    } else {
                        Ok(st2)
                    }
                },
            }
        }
    }
}

/// One binding per block, in order.
pub open spec fn bindings_code(names: Seq<Seq<char>>, bodies: Seq<Seq<char>>) -> Seq<char>
    decreases names.len(),
{
    if names.len() == 0 {
        Seq::empty()
    } else {
        bindings_code(names.drop_last(), bodies) + "let _"@ + names.last() + " = {"@
            + bodies[names.len() - 1] + "};"@
    }
}

/// The bound blocks as the field shorthands of the base's parameter record.
pub open spec fn field_shorthands(names: Seq<Seq<char>>) -> Seq<char>
    decreases names.len(),
{
    if names.len() == 0 {
        Seq::empty()
    } else {
        field_shorthands(names.drop_last()) + "_"@ + names.last() + ", "@
    }
}

/// The view of an extending template: its blocks bound, then the base's
/// view called with them.
pub open spec fn extend_code(base: Seq<char>, names: Seq<Seq<char>>, bodies: Seq<Seq<char>>) -> Seq<
    char,
> {
    "{"@ + bindings_code(names, bodies) + base + "::base(req, "@ + base + "::Args{"@
        + field_shorthands(names) + "})}"@
}

/// The fields of the parameter record, one per declared block.
pub open spec fn args_fields(blocks: Seq<Seq<char>>) -> Seq<char>
    decreases blocks.len(),
{
    if blocks.len() == 0 {
        Seq::empty()
    } else {
        args_fields(blocks.drop_last()) + "pub _"@ + blocks.last() + ": String,"@
    }
}

/// The parameter record description of a template that declares `blocks`.
pub open spec fn args_record(blocks: Seq<Seq<char>>) -> Seq<char> {
    "pub struct Args {"@ + args_fields(blocks) + "}"@
}

/// Ends a plain template's view: the buffer becomes the response body.
pub open spec fn response_close() -> Seq<char> {
    "Ok(anansi::web::Response::new(\"HTTP/1.1 200 OK\", _c.into_bytes()))}"@
}

/// A template's first whitespace-delimited token.
pub open spec fn first_token(s: Seq<char>) -> Seq<char> {
    s.subrange(0, space_end(s, 0, s.len() as int))
}

/// Where the base's name ends: at the end of the first line.
pub open spec fn base_line_end(s: Seq<char>) -> int {
    let end = s.len() as int;
    find_from(s, past(space_end(s, 0, end), end), end, '\n')
}

/// The base that an extending template names after its first token.
pub open spec fn base_of(s: Seq<char>) -> Seq<char> {
    let end = s.len() as int;
    trim(s.subrange(past(space_end(s, 0, end), end), base_line_end(s)))
}

/// Block collection at the start of an extending template's second line.
pub open spec fn blocks_start(s: Seq<char>) -> Inheritance {
    Inheritance {
        pos: past(base_line_end(s), s.len() as int),
        names: Seq::empty(),
        bodies: Seq::empty(),
        blocks: Seq::empty(),
    }
}

/// The generated view of template `s` and, where it declares blocks or is a
/// chained base, its parameter record description.
pub open spec fn transpiled(s: Seq<char>) -> Result<(Seq<char>, Option<Seq<char>>), TemplateError> {
    let end = s.len() as int;
    let first = first_token(s);
    if first == "@extend"@ || first == "@base_extend"@ {
        match inherit_blocks(s, end, blocks_start(s)) {
            Ok(st) => Ok(
                (
                    extend_code(base_of(s), st.names, st.bodies),
                    if st.blocks.len() > 0 || first == "@base_extend"@ {
                        Some(args_record(st.blocks))
                    } else {
                        None
                    },
                ),
            ),
            Err(e) => Err(e),
        }
    } else {
        match process_text(s, 0, end, buffer_open(), Seq::empty()) {
            Ok(st) => Ok(
                (
                    st.out + response_close(),
                    if st.blocks.len() > 0 {
                        Some(args_record(st.blocks))
                    } else {
                        None
                    },
                ),
            ),
            Err(e) => Err(e),
        }
    }
}

} // verus!

verus! {

/// `space_end` lies in `[p, end]`.
pub proof fn lemma_space_end_bounds(s: Seq<char>, p: int, end: int)
    requires
        p <= end,
    ensures
        p <= space_end(s, p, end) <= end,
    decreases end - p,
{
    if p < end && !is_space(s[p]) {
        lemma_space_end_bounds(s, p + 1, end);
    }
}

/// `space_end` is `k` where `k` is the first index from `p` that holds
/// whitespace.
pub proof fn lemma_space_end_first(s: Seq<char>, p: int, end: int, k: int)
    requires
        p <= k <= end,
        forall|j: int| p <= j < k ==> !is_space(#[trigger] s[j]),
        k < end ==> is_space(s[k]),
    ensures
        space_end(s, p, end) == k,
    decreases k - p,
{
    if p < k {
        lemma_space_end_first(s, p + 1, end, k);
    }
}

} // verus!
