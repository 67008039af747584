//! Transpiling a whole template: the executable counterpart of `inherit`.

use vstd::prelude::*;
use crate::grammar::{lemma_block_close_ends, process_text, views, TemplateError};
use crate::inherit::{
    args_fields, args_record, bind_bodies, bind_names, binding_index, bindings_code, buffer_open,
    extend_code, field_shorthands, inherit_blocks, is_space, space_end, transpiled, trim,
    trim_back, trim_front, Inheritance,
};
use crate::parser::Parser;
use crate::scan::{collect_name, find, get_block};
use crate::text::{chars_of, push_range, push_str, range_is, range_of, string_of};

verus! {

/// A transpiled template: its view's code and, for a template that declares
/// blocks or is a chained base, its parameter record description.
pub struct Transpiled {
    pub view: String,
    pub args: Option<String>,
}

/// The view of an optional string.
pub open spec fn opt_view(o: Option<String>) -> Option<Seq<char>> {
    match o {
        Some(x) => Some(x@),
        None => None,
    }
}

/// Whether `c` is whitespace, as `char::is_whitespace` has it.
pub fn is_space_char(c: char) -> (r: bool)
    ensures
        r == is_space(c),
{
    let u = c as u32;
    (9 <= u && u <= 13) || u == 32 || u == 0x85 || u == 0xa0 || u == 0x1680 || (0x2000 <= u && u
        <= 0x200a) || u == 0x2028 || u == 0x2029 || u == 0x202f || u == 0x205f || u == 0x3000
}

/// The first index in `[p, end)` that holds whitespace, or `end`.
pub fn find_space(s: &Vec<char>, p: usize, end: usize) -> (r: usize)
    requires
        p <= end <= s.len(),
    ensures
        r == space_end(s@, p as int, end as int),
        p <= r <= end,
{
    let mut i: usize = p;
    while i < end && !is_space_char(s[i])
        invariant
            p <= i <= end <= s.len(),
            space_end(s@, i as int, end as int) == space_end(s@, p as int, end as int),
        decreases end - i,
    {
        i = i + 1;
    }
    i
}

/// `v` without leading and trailing whitespace.
pub fn trim_chars(v: &Vec<char>) -> (r: Vec<char>)
    ensures
        r@ == trim(v@),
{
    let n = v.len();
    let mut a: usize = 0;
    assert(v@.subrange(0, n as int) =~= v@);
    while a < n && is_space_char(v[a])
        invariant
            a <= n == v.len(),
            trim_front(v@) == trim_front(v@.subrange(a as int, n as int)),
        decreases n - a,
    {
        assert(v@.subrange(a as int, n as int).drop_first() =~= v@.subrange(a + 1, n as int));
        a = a + 1;
    }
    assert(trim_front(v@.subrange(a as int, n as int)) == v@.subrange(a as int, n as int));
    let mut b: usize = n;
    while b > a && is_space_char(v[b - 1])
        invariant
            a <= b <= n == v.len(),
            trim(v@) == trim_back(v@.subrange(a as int, b as int)),
        decreases b - a,
    {
        assert(v@.subrange(a as int, b as int).drop_last() =~= v@.subrange(a as int, b - 1));
        b = b - 1;
    }
    range_of(v, a, b)
}

/// Whether `a` and `b` hold the same characters.
pub fn same_chars(a: &Vec<char>, b: &Vec<char>) -> (r: bool)
    ensures
        r == (a@ == b@),
{
    if a.len() != b.len() {
        return false;
    }
    let mut i: usize = 0;
    while i < a.len()
        invariant
            a.len() == b.len(),
            i <= a.len(),
            forall|j: int| 0 <= j < i ==> a@[j] == b@[j],
        decreases a.len() - i,
    {
        if a[i] != b[i] {
            return false;
        }
        i = i + 1;
    }
    assert(a@ =~= b@);
    true
}

/// Binds block `name` to `body`: a name bound before gets the new body in
/// place, a new one is added at the end.
fn bind(names: &mut Vec<Vec<char>>, bodies: &mut Vec<Vec<char>>, name: Vec<char>, body: Vec<char>)
    requires
        old(names).len() == old(bodies).len(),
    ensures
        final(names).len() == final(bodies).len(),
        views(final(names)@) == bind_names(views(old(names)@), name@),
        views(final(bodies)@) == bind_bodies(views(old(names)@), views(old(bodies)@), name@, body@),
{
    let ghost ns = views(names@);
    let mut i: usize = 0;
    while i < names.len()
        invariant
            i <= names.len() == bodies.len(),
            ns == views(names@),
            names@ == old(names)@,
            bodies@ == old(bodies)@,
            binding_index(ns, name@, i as int) == binding_index(ns, name@, 0),
        decreases names.len() - i,
    {
        if same_chars(&names[i], &name) {
            let ghost bs = views(bodies@);
            bodies.set(i, body);
            assert(views(bodies@) =~= bs.update(i as int, body@));
            return;
        }
        i = i + 1;
    }
    let ghost bs = views(bodies@);
    names.push(name);
    bodies.push(body);
    assert(views(names@) =~= ns.push(name@));
    assert(views(bodies@) =~= bs.push(body@));
}

/// The current stand of block collection.
pub open spec fn inheritance(
    pos: usize,
    names: Seq<Vec<char>>,
    bodies: Seq<Vec<char>>,
    blocks: Seq<Vec<char>>,
) -> Inheritance {
    Inheritance { pos: pos as int, names: views(names), bodies: views(bodies), blocks: views(blocks) }
}

impl Parser {
    /// Collects an extending template's block declarations from the read
    /// position; yields their names and bodies.
    pub fn extend(&mut self, s: &Vec<char>) -> (r: Result<(Vec<Vec<char>>, Vec<Vec<char>>), TemplateError>)
        requires
            old(self).pos <= s.len(),
        ensures
            match inherit_blocks(
                s@,
                s.len() as int,
                inheritance(old(self).pos, Seq::empty(), Seq::empty(), old(self).blocks@),
            ) {
                Ok(st) => r is Ok && r->Ok_0.0.len() == r->Ok_0.1.len() && views(r->Ok_0.0@) == st.names && views(r->Ok_0.1@)
                    == st.bodies && views(final(self).blocks@) == st.blocks,
                Err(e) => r is Err && r->Err_0 == e,
            },
    {
        let end = s.len();
        let mut names: Vec<Vec<char>> = Vec::new();
        let mut bodies: Vec<Vec<char>> = Vec::new();
        let mut pos = self.pos;
        let ghost start = inheritance(self.pos, names@, bodies@, self.blocks@);
        assert(views(names@) =~= Seq::<Seq<char>>::empty());
        assert(views(bodies@) =~= Seq::<Seq<char>>::empty());
        loop
            invariant
                pos <= end == s.len(),
                names.len() == bodies.len(),
                start == inheritance(old(self).pos, Seq::empty(), Seq::empty(), old(self).blocks@),
                inherit_blocks(s@, end as int, inheritance(pos, names@, bodies@, self.blocks@))
                    == inherit_blocks(s@, end as int, start),
            decreases end - pos,
        {
            let ghost cur = inheritance(pos, names@, bodies@, self.blocks@);
            let a = find(s, pos, end, '@');
            let word_start = if a < end {
                a + 1
            } else {
                end
            };
            let f = find(s, word_start, end, ' ');
            if !range_is(s, word_start, f, "block") {
                return Ok((names, bodies));
            }
            let name_start = if f < end {
                f + 1
            } else {
                end
            };
            let g = collect_name(s, name_start, end);
            let name = range_of(s, name_start, g);
            let o = find(s, g, end, '{');
            let brace_end = if o < end {
                o + 1
            } else {
                end
            };
            let b0 = if brace_end < end && s[brace_end] == '\n' {
                brace_end + 1
            } else {
                brace_end
            };
            let k = get_block(s, b0, end);
            proof {
                lemma_block_close_ends(s@, b0 as int, end as int, 0, false);
            }
            if k >= end {
                return Err(TemplateError::UnterminatedBlock);
            }
            self.out = Vec::new();
            push_str(&mut self.out, "{let mut _c = String::new();");
            let r = self.process(s, b0, k);
            if r.is_err() {
                return Err(r.unwrap_err());
            }
            push_str(&mut self.out, " _c}");
            let mut body: Vec<char> = Vec::new();
            std::mem::swap(&mut body, &mut self.out);
            let ghost body_view = body@;
            bind(&mut names, &mut bodies, name, body);
            pos = if s[k] == '}' {
                k + 1
            } else {
                k + 2
            };
            proof {
                let pt = process_text(s@, b0 as int, k as int, buffer_open(), cur.blocks)->Ok_0;
                assert(body_view == pt.out + " _c}"@);
            }
        }
    }
}

/// Appends a binding for each block.
fn push_bindings(out: &mut Vec<char>, names: &Vec<Vec<char>>, bodies: &Vec<Vec<char>>)
    requires
        names.len() == bodies.len(),
    ensures
        final(out)@ == old(out)@ + bindings_code(views(names@), views(bodies@)),
{
    let ghost o = out@;
    let mut k: usize = 0;
    while k < names.len()
        invariant
            k <= names.len() == bodies.len(),
            out@ == o + bindings_code(views(names@).take(k as int), views(bodies@)),
        decreases names.len() - k,
    {
        assert(views(names@).take(k + 1).drop_last() =~= views(names@).take(k as int));
        push_str(out, "let _");
        push_range(out, &names[k], 0, names[k].len());
        push_str(out, " = {");
        push_range(out, &bodies[k], 0, bodies[k].len());
        push_str(out, "};");
        k = k + 1;
        assert(names@[k - 1]@.subrange(0, names@[k - 1]@.len() as int) =~= names@[k - 1]@);
        assert(bodies@[k - 1]@.subrange(0, bodies@[k - 1]@.len() as int) =~= bodies@[k - 1]@);
        assert(out@ =~= o + bindings_code(views(names@).take(k as int), views(bodies@)));
    }
    assert(views(names@).take(names.len() as int) =~= views(names@));
}

/// Appends the field shorthands of the bound blocks.
fn push_shorthands(out: &mut Vec<char>, names: &Vec<Vec<char>>)
    ensures
        final(out)@ == old(out)@ + field_shorthands(views(names@)),
{
    let ghost o = out@;
    let mut k: usize = 0;
    while k < names.len()
        invariant
            k <= names.len(),
            out@ == o + field_shorthands(views(names@).take(k as int)),
        decreases names.len() - k,
    {
        assert(views(names@).take(k + 1).drop_last() =~= views(names@).take(k as int));
        push_str(out, "_");
        push_range(out, &names[k], 0, names[k].len());
        push_str(out, ", ");
        k = k + 1;
        assert(names@[k - 1]@.subrange(0, names@[k - 1]@.len() as int) =~= names@[k - 1]@);
        assert(out@ =~= o + field_shorthands(views(names@).take(k as int)));
    }
    assert(views(names@).take(names.len() as int) =~= views(names@));
}

/// The parameter record description for the declared blocks.
pub fn args_description(blocks: &Vec<Vec<char>>) -> (r: Vec<char>)
    ensures
        r@ == args_record(views(blocks@)),
{
    let mut out: Vec<char> = Vec::new();
    push_str(&mut out, "pub struct Args {");
    let ghost o = out@;
    let mut k: usize = 0;
    while k < blocks.len()
        invariant
            k <= blocks.len(),
            out@ == o + args_fields(views(blocks@).take(k as int)),
        decreases blocks.len() - k,
    {
        assert(views(blocks@).take(k + 1).drop_last() =~= views(blocks@).take(k as int));
        push_str(&mut out, "pub _");
        push_range(&mut out, &blocks[k], 0, blocks[k].len());
        push_str(&mut out, ": String,");
        k = k + 1;
        assert(blocks@[k - 1]@.subrange(0, blocks@[k - 1]@.len() as int) =~= blocks@[k - 1]@);
        assert(out@ =~= o + args_fields(views(blocks@).take(k as int)));
    }
    assert(views(blocks@).take(blocks.len() as int) =~= views(blocks@));
    push_str(&mut out, "}");
    out
}

/// Transpiles one template into its view's code and, where it declares
/// blocks or is a chained base, its parameter record description.
pub fn transpile(template: &str) -> (r: Result<Transpiled, TemplateError>)
    ensures
        match transpiled(template@) {
            Ok((view, args)) => r is Ok && r->Ok_0.view@ == view && opt_view(r->Ok_0.args) == args,
            Err(e) => r is Err && r->Err_0 == e,
        },
{
    let s = chars_of(template);
    let end = s.len();
    let f = find_space(&s, 0, end);
    let plain = range_is(&s, 0, f, "@extend");
    let chained = range_is(&s, 0, f, "@base_extend");
    if plain || chained {
        let p = if f < end {
            f + 1
        } else {
            end
        };
        let h = find(&s, p, end, '\n');
        let base = trim_chars(&range_of(&s, p, h));
        let mut parser = Parser::new();
        parser.pos = if h < end {
            h + 1
        } else {
            end
        };
        assert(views(parser.blocks@) =~= Seq::<Seq<char>>::empty());
        let (names, bodies) = match parser.extend(&s) {
            Ok(nb) => nb,
            Err(e) => {
                return Err(e);
            },
        };
        let mut view: Vec<char> = Vec::new();
        push_str(&mut view, "{");
        push_bindings(&mut view, &names, &bodies);
        push_range(&mut view, &base, 0, base.len());
        push_str(&mut view, "::base(req, ");
        push_range(&mut view, &base, 0, base.len());
        push_str(&mut view, "::Args{");
        push_shorthands(&mut view, &names);
        push_str(&mut view, "})}");
        assert(base@.subrange(0, base@.len() as int) =~= base@);
        assert(view@ =~= extend_code(base@, views(names@), views(bodies@)));
        let args = if parser.blocks.len() > 0 || chained {
            Some(string_of(&args_description(&parser.blocks)))
        } else {
            None
        };
        Ok(Transpiled { view: string_of(&view), args })
    } else {
        let mut parser = Parser::new();
        push_str(&mut parser.out, "{let mut _c = String::new();");
        assert(views(parser.blocks@) =~= Seq::<Seq<char>>::empty());
        let r = parser.process(&s, 0, end);
        if r.is_err() {
            return Err(r.unwrap_err());
        }
        push_str(&mut parser.out, "Ok(anansi::web::Response::new(\"HTTP/1.1 200 OK\", _c.into_bytes()))}");
        let args = if parser.blocks.len() > 0 {
            Some(string_of(&args_description(&parser.blocks)))
        } else {
            None
        };
        Ok(Transpiled { view: string_of(&parser.out), args })
    }
}

} // verus!
