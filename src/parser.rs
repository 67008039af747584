//! The scanner that turns template text into rendering code, each step
//! proved to produce what `grammar` states.

use vstd::prelude::*;
use crate::grammar::{
    body_close, directive, emit, escaped_expr, expression, control_body, form_head, join_segments,
    link, link_attrs, link_close, link_open, link_segments, lit_char, lit_close, lit_open,
    process_text, quote_escaped, raw_expr, block_ref, scan_text, split_commas, views, ScanState,
    TemplateError, lemma_block_close_ends, lemma_split_at_comma, lemma_split_no_comma,
};
use crate::scan::{
    collect_name, collect_paren, find, find_code_close, find_expr_close, find_word_end, get_block,
};
use crate::text::{contains_char, copy_of, push_range, push_str, range_is, range_of};

verus! {

/// The scan of one template: the read position, the code generated so far
/// and the blocks that the template declares.
pub struct Parser {
    pub pos: usize,
    pub out: Vec<char>,
    pub blocks: Vec<Vec<char>>,
}

/// `r` and the state `after` are what the expected result says.
pub open spec fn outcome(
    expected: Result<ScanState, TemplateError>,
    r: Result<(), TemplateError>,
    after: ScanState,
) -> bool {
    match expected {
        Ok(st) => r is Ok && after == st,
        Err(e) => r == Err::<(), TemplateError>(e),
    }
}

/// Appends the literal form of `c`.
fn push_lit_char(out: &mut Vec<char>, c: char)
    ensures
        final(out)@ == old(out)@ + lit_char(c),
{
    if c == '"' {
        push_str(out, "\\\"");
    } else if c == '\\' {
        push_str(out, "\\\\");
    } else {
        let ghost o = out@;
        out.push(c);
        assert(out@ =~= o + seq![c]);
    }
}

/// Appends all of `v`.
fn push_all(out: &mut Vec<char>, v: &Vec<char>)
    ensures
        final(out)@ == old(out)@ + v@,
{
    push_range(out, v, 0, v.len());
    assert(v@.subrange(0, v@.len() as int) =~= v@);
}

/// Appends `t` with each double quote escaped.
fn push_quote_escaped(out: &mut Vec<char>, t: &Vec<char>)
    ensures
        final(out)@ == old(out)@ + quote_escaped(t@),
{
    let ghost o = out@;
    let mut i: usize = 0;
    while i < t.len()
        invariant
            i <= t.len(),
            out@ == o + quote_escaped(t@.take(i as int)),
        decreases t.len() - i,
    {
        assert(t@.take(i + 1).drop_last() =~= t@.take(i as int));
        if t[i] == '"' {
            push_str(out, "\\\"");
        } else {
            let ghost o2 = out@;
            out.push(t[i]);
            assert(out@ =~= o2 + seq![t@[i as int]]);
        }
        i = i + 1;
        assert(out@ =~= o + quote_escaped(t@.take(i as int)));
    }
    assert(t@.take(t.len() as int) =~= t@);
}

/// The comma-separated arguments in `s[from..to]`.
fn split_args(s: &Vec<char>, from: usize, to: usize) -> (r: Vec<Vec<char>>)
    requires
        from <= to <= s.len(),
    ensures
        views(r@) == split_commas(s@.subrange(from as int, to as int)),
{
    let ghost t = s@.subrange(from as int, to as int);
    let mut done: Vec<Vec<char>> = Vec::new();
    let mut cur: Vec<char> = Vec::new();
    let mut i: usize = from;
    while i < to
        invariant
            from <= i <= to <= s.len(),
            t == s@.subrange(from as int, to as int),
            !cur@.contains(','),
            views(done@) + split_commas(cur@ + s@.subrange(i as int, to as int)) == split_commas(t),
        decreases to - i,
    {
        if s[i] == ',' {
            proof {
                lemma_split_at_comma(cur@, s@.subrange(i + 1, to as int));
                assert(cur@ + s@.subrange(i as int, to as int) =~= cur@ + seq![','] + s@.subrange(
                    i + 1,
                    to as int,
                ));
            }
            let ghost d = done@;
            done.push(cur);
            assert(views(done@) =~= views(d) + seq![cur@]);
            cur = Vec::new();
            assert(cur@ + s@.subrange(i + 1, to as int) =~= s@.subrange(i + 1, to as int));
        } else {
            let ghost c0 = cur@;
            cur.push(s[i]);
            assert(cur@ + s@.subrange(i + 1, to as int) =~= c0 + s@.subrange(i as int, to as int));
            assert(!cur@.contains(',')) by {
                if cur@.contains(',') {
                    let k = choose|k: int| 0 <= k < cur@.len() && cur@[k] == ',';
                    if k < c0.len() {
                        assert(c0.contains(','));
                    }
                }
            }
        }
        i = i + 1;
    }
    proof {
        lemma_split_no_comma(cur@);
        assert(cur@ + s@.subrange(i as int, to as int) =~= cur@);
    }
    let ghost d = done@;
    done.push(cur);
    assert(views(done@) =~= views(d) + seq![cur@]);
    done
}

/// A link's attributes and its URL segments, from its arguments.
fn classify_args(args: &Vec<Vec<char>>) -> (r: (Vec<char>, Vec<Vec<char>>))
    ensures
        r.0@ == link_attrs(views(args@)),
        views(r.1@) == link_segments(views(args@)),
{
    let mut attrs: Vec<char> = Vec::new();
    let mut segs: Vec<Vec<char>> = Vec::new();
    let mut k: usize = 0;
    while k < args.len()
        invariant
            k <= args.len(),
            attrs@ == link_attrs(views(args@).take(k as int)),
            views(segs@) == link_segments(views(args@).take(k as int)),
        decreases args.len() - k,
    {
        assert(views(args@).take(k + 1).drop_last() =~= views(args@).take(k as int));
        assert(views(args@).take(k + 1).last() == args@[k as int]@);
        if contains_char(&args[k], '=') {
            attrs.push(' ');
            push_quote_escaped(&mut attrs, &args[k]);
            assert(attrs@ =~= link_attrs(views(args@).take(k as int)) + (seq![' '] + quote_escaped(
                args@[k as int]@,
            )));
        } else {
            let ghost s0 = segs@;
            segs.push(copy_of(&args[k]));
            assert(views(segs@) =~= views(s0).push(args@[k as int]@));
            assert(attrs@ =~= link_attrs(views(args@).take(k as int)) + Seq::<char>::empty());
        }
        k = k + 1;
    }
    assert(views(args@).take(args.len() as int) =~= views(args@));
    (attrs, segs)
}

/// The URL segments joined by `", "`.
fn join(segs: &Vec<Vec<char>>) -> (r: Vec<char>)
    requires
        segs.len() > 0,
    ensures
        r@ == join_segments(views(segs@)),
{
    let mut u = copy_of(&segs[0]);
    assert(views(segs@).take(1).len() == 1);
    let mut k: usize = 1;
    while k < segs.len()
        invariant
            1 <= k <= segs.len(),
            u@ == join_segments(views(segs@).take(k as int)),
        decreases segs.len() - k,
    {
        assert(views(segs@).take(k + 1).drop_last() =~= views(segs@).take(k as int));
        push_str(&mut u, ", ");
        push_all(&mut u, &segs[k]);
        k = k + 1;
    }
    assert(views(segs@).take(segs.len() as int) =~= views(segs@));
    u
}

impl Parser {
    /// What the scan has reached.
    pub open spec fn state(&self) -> ScanState {
        ScanState { pos: self.pos as int, out: self.out@, blocks: views(self.blocks@) }
    }

    /// A scan at the start of empty output with no blocks declared.
    pub fn new() -> (r: Parser)
        ensures
            r.pos == 0,
            r.out@ == Seq::<char>::empty(),
            r.blocks@ == Seq::<Vec<char>>::empty(),
    {
        Parser { pos: 0, out: Vec::new(), blocks: Vec::new() }
    }

    /// Scans literal text up to `end`; in a body, up to the `}` that closes it.
    pub fn scan(&mut self, s: &Vec<char>, end: usize, in_body: bool, form: bool) -> (r: Result<
        (),
        TemplateError,
    >)
        requires
            old(self).pos <= end <= s.len(),
        ensures
            outcome(
                scan_text(s@, end as int, old(self).state(), in_body, form),
                r,
                final(self).state(),
            ),
            r is Ok ==> old(self).pos <= final(self).pos <= end,
            r is Ok && in_body ==> old(self).pos < final(self).pos,
        decreases end - old(self).pos, 2int,
    {
        let ghost st0 = self.state();
        loop
            invariant
                st0 == old(self).state(),
                st0.pos <= self.pos <= end <= s.len(),
                scan_text(s@, end as int, self.state(), in_body, form) == scan_text(
                    s@,
                    end as int,
                    st0,
                    in_body,
                    form,
                ),
            decreases end - self.pos,
        {
            if self.pos >= end {
                if in_body {
                    return Err(TemplateError::UnterminatedBody);
                }
                return Ok(());
            }
            let c = s[self.pos];
            let ghost before = self.state();
            if c == '@' {
                push_str(&mut self.out, "\");");
                self.pos = self.pos + 1;
                assert(self.state() == emit(before, before.pos + 1, lit_close()));
                let r = self.at(s, end);
                if r.is_err() {
                    return r;
                }
            } else if c == '}' && in_body {
                if form {
                    push_str(&mut self.out, "</form>\");}_c.push_str(\"");
                } else {
                    push_str(&mut self.out, "\");}_c.push_str(\"");
                }
                self.pos = self.pos + 1;
                assert(self.state() == emit(before, before.pos + 1, body_close(form)));
                return Ok(());
            } else {
                push_lit_char(&mut self.out, c);
                self.pos = self.pos + 1;
                assert(self.state() == emit(before, before.pos + 1, lit_char(c)));
            }
        }
    }

    /// The directive whose marker stands just before the read position; the
    /// literal that was open has been closed.
    pub fn at(&mut self, s: &Vec<char>, end: usize) -> (r: Result<(), TemplateError>)
        requires
            old(self).pos <= end <= s.len(),
        ensures
            outcome(directive(s@, end as int, old(self).state()), r, final(self).state()),
            r is Ok ==> old(self).pos < final(self).pos <= end,
        decreases end - old(self).pos, 1int,
    {
        let ghost st = self.state();
        let a = self.pos;
        if a >= end {
            return Err(TemplateError::DanglingMarker);
        }
        if s[a] == '{' {
            let k = find_code_close(s, a + 1, end);
            if k >= end {
                return Err(TemplateError::UnterminatedCode);
            }
            push_range(&mut self.out, s, a + 1, k);
            push_str(&mut self.out, "_c.push_str(\"");
            self.pos = k + 1;
            assert(self.out@ =~= st.out + (s@.subrange(a + 1, k as int) + lit_open()));
            return Ok(());
        }
        if s[a] == '(' {
            let i = find_expr_close(s, a + 1, end);
            if i >= end {
                return Err(TemplateError::UnterminatedExpression);
            }
            push_str(&mut self.out, "_c.push_str(&anansi::web::html_escape(&format!(\"{}\", ");
            push_range(&mut self.out, s, a + 1, i);
            push_str(&mut self.out, ")));_c.push_str(\"");
            self.pos = i + 1;
            assert(self.out@ =~= st.out + escaped_expr(s@.subrange(a + 1, i as int)));
            return Ok(());
        }
        let i = find_word_end(s, a + 1, end);
        let mut extra: Vec<char> = Vec::new();
        if i < end {
            push_lit_char(&mut extra, s[i]);
        }
        assert(i >= end ==> extra@ =~= Seq::<char>::empty());
        let p = if i < end {
            i + 1
        } else {
            end
        };
        let ghost word = s@.subrange(a as int, i as int);
        if range_is(s, a, i, "if") || range_is(s, a, i, "for") || range_is(s, a, i, "loop")
            || range_is(s, a, i, "while") {
            let mut head = range_of(s, a, i);
            push_all(&mut head, &extra);
            return self.control(s, end, p, &head, false);
        } else if range_is(s, a, i, "build") {
            let j = collect_name(s, p, end);
            if j >= end {
                return Err(TemplateError::UnterminatedName);
            }
            let mut head: Vec<char> = Vec::new();
            push_str(&mut head, "_c.push_str(&");
            push_range(&mut head, s, p, j);
            push_str(&mut head, ".tag()); if let Some(token_tag) = ");
            push_range(&mut head, s, p, j);
            push_str(&mut head, ".token_tag() { _c.push_str(&token_tag) }");
            assert(head@ =~= form_head(s@.subrange(p as int, j as int)));
            if s[j] == '{' {
                return self.control(s, end, j, &head, true);
            } else if s[j] == ' ' && j + 1 < end && s[j + 1] == '{' {
                let ghost h0 = head@;
                head.push(' ');
                assert(head@ =~= h0 + seq![' ']);
                return self.control(s, end, j + 1, &head, true);
            }
            push_all(&mut self.out, &head);
            push_str(&mut self.out, "_c.push_str(\"");
            self.out.push(s[j]);
            self.pos = j + 1;
            assert(self.out@ =~= st.out + (form_head(s@.subrange(p as int, j as int)) + lit_open()
                + seq![s@[j as int]]));
            return Ok(());
        } else if range_is(s, a, i, "block") || range_is(s, a, i, "unescape") {
            let j = collect_name(s, p, end);
            if j >= end {
                return Err(TemplateError::UnterminatedName);
            }
            let name = range_of(s, p, j);
            if range_is(s, a, i, "block") && s[j] == '{' {
                let k = get_block(s, j + 1, end);
                proof {
                    lemma_block_close_ends(s@, j + 1, end as int, 0, false);
                }
                if k >= end {
                    return Err(TemplateError::UnterminatedBlock);
                }
                push_str(&mut self.out, "_c.push_str(&_base_args._");
                push_all(&mut self.out, &name);
                push_str(&mut self.out, ");_c.push_str(\"");
                self.blocks.push(name);
                assert(views(self.blocks@) =~= st.blocks.push(s@.subrange(p as int, j as int)));
                assert(self.out@ =~= st.out + block_ref(s@.subrange(p as int, j as int)));
                self.pos = if s[k] == '}' {
                    k + 1
                } else {
                    k + 2
                };
                return Ok(());
            } else if range_is(s, a, i, "block") {
                push_str(&mut self.out, "_c.push_str(&_base_args._");
                push_all(&mut self.out, &name);
                push_str(&mut self.out, ");_c.push_str(\"");
                self.out.push(s[j]);
                self.blocks.push(name);
                assert(views(self.blocks@) =~= st.blocks.push(s@.subrange(p as int, j as int)));
                assert(self.out@ =~= st.out + block_ref(s@.subrange(p as int, j as int)) + seq![
                    s@[j as int],
                ]);
            } else {
                push_str(&mut self.out, "_c.push_str(&format!(\"{}\", ");
                push_all(&mut self.out, &name);
                push_str(&mut self.out, "));_c.push_str(\"");
                self.out.push(s[j]);
                assert(self.out@ =~= st.out + (raw_expr(s@.subrange(p as int, j as int)) + seq![
                    s@[j as int],
                ]));
            }
            self.pos = j + 1;
            return Ok(());
        } else if range_is(s, a, i, "link") {
            return self.link(s, end, p);
        } else if range_is(s, a, i, "url!") {
            let mut e: Vec<char> = Vec::new();
            push_str(&mut e, "anansi::url!");
            return self.variable(s, end, p, &e, &extra);
        } else {
            let e = range_of(s, a, i);
            return self.variable(s, end, p, &e, &extra);
        }
    }

    /// An expression `e` rendered escaped; a `(` after it opens its argument list.
    pub fn variable(
        &mut self,
        s: &Vec<char>,
        end: usize,
        p: usize,
        e: &Vec<char>,
        extra: &Vec<char>,
    ) -> (r: Result<(), TemplateError>)
        requires
            old(self).pos < p <= end <= s.len(),
        ensures
            outcome(
                expression(s@, end as int, old(self).state(), p as int, e@, extra@),
                r,
                final(self).state(),
            ),
            r is Ok ==> old(self).pos < final(self).pos <= end,
    {
        let ghost st = self.state();
        if extra.len() == 1 && extra[0] == '(' {
            assert(extra@ =~= seq!['(']);
            let i = collect_paren(s, p, end);
            if i >= end {
                return Err(TemplateError::UnterminatedExpression);
            }
            push_str(&mut self.out, "_c.push_str(&anansi::web::html_escape(&format!(\"{}\", ");
            push_all(&mut self.out, e);
            self.out.push('(');
            push_range(&mut self.out, s, p, i + 1);
            push_str(&mut self.out, ")));_c.push_str(\"");
            self.pos = i + 1;
            assert(self.out@ =~= st.out + escaped_expr(
                e@ + seq!['('] + s@.subrange(p as int, i + 1),
            ));
            Ok(())
        } else {
            assert(extra@ != seq!['(']) by {
                if extra@ == seq!['('] {
                    assert(extra@.len() == 1 && extra@[0] == '(');
                }
            }
            push_str(&mut self.out, "_c.push_str(&anansi::web::html_escape(&format!(\"{}\", ");
            push_all(&mut self.out, e);
            push_str(&mut self.out, ")));_c.push_str(\"");
            push_all(&mut self.out, extra);
            self.pos = p;
            assert(self.out@ =~= st.out + (escaped_expr(e@) + extra@));
            Ok(())
        }
    }

    /// A control-flow or form directive with code `head`; its body follows
    /// the next `{` from `p`.
    pub fn control(
        &mut self,
        s: &Vec<char>,
        end: usize,
        p: usize,
        head: &Vec<char>,
        form: bool,
    ) -> (r: Result<(), TemplateError>)
        requires
            old(self).pos <= end <= s.len(),
            p <= end,
        ensures
            outcome(
                control_body(s@, end as int, old(self).state(), p as int, head@, form),
                r,
                final(self).state(),
            ),
            r is Ok ==> old(self).pos < final(self).pos <= end,
        decreases end - old(self).pos, 0int,
    {
        let ghost st = self.state();
        let f = find(s, p, end, '{');
        if !(self.pos < p && f < end) {
            return Err(TemplateError::UnterminatedBody);
        }
        push_all(&mut self.out, head);
        push_range(&mut self.out, s, p, f + 1);
        push_str(&mut self.out, "_c.push_str(\"");
        self.pos = f + 1;
        assert(self.out@ =~= st.out + (head@ + s@.subrange(p as int, f + 1) + lit_open()));
        self.scan(s, end, true, form)
    }

    /// A link directive whose arguments start at `p`.
    pub fn link(&mut self, s: &Vec<char>, end: usize, p: usize) -> (r: Result<(), TemplateError>)
        requires
            old(self).pos <= end <= s.len(),
            p <= end,
        ensures
            outcome(link(s@, end as int, old(self).state(), p as int), r, final(self).state()),
            r is Ok ==> old(self).pos < final(self).pos <= end,
        decreases end - old(self).pos, 0int,
    {
        let ghost st = self.state();
        let f = find(s, p, end, '{');
        if !(self.pos < p && f < end) {
            return Err(TemplateError::UnterminatedLink);
        }
        let g = find(s, f + 1, end, '}');
        if g >= end {
            return Err(TemplateError::UnterminatedLink);
        }
        let args = split_args(s, p, f);
        let (attrs, segs) = classify_args(&args);
        if segs.len() == 0 {
            return Err(TemplateError::MissingLinkTarget);
        }
        let url = join(&segs);
        push_str(&mut self.out, "_c.push_str(&format!(\"<a href=\\\"{}\\\"");
        push_all(&mut self.out, &attrs);
        push_str(&mut self.out, ">\", anansi::url!(");
        push_all(&mut self.out, &url);
        push_str(&mut self.out, ")));");
        push_str(&mut self.out, "_c.push_str(\"");
        self.pos = f + 1;
        assert(self.out@ =~= st.out + (link_open(attrs@, url@) + lit_open()));
        let r = self.scan(s, g, false, false);
        if r.is_err() {
            return r;
        }
        push_str(&mut self.out, "\");");
        push_str(&mut self.out, "_c.push_str(\"</a>");
        let ghost inner = scan_text(
            s@,
            g as int,
            emit(st, f + 1, link_open(attrs@, url@) + lit_open()),
            false,
            false,
        )->Ok_0;
        self.pos = g + 1;
        assert(self.out@ =~= inner.out + (lit_close() + link_close()));
        Ok(())
    }

    /// Appends the code for literal text `s[start..end]` with its directives,
    /// as one statement chain.
    pub fn process(&mut self, s: &Vec<char>, start: usize, end: usize) -> (r: Result<
        (),
        TemplateError,
    >)
        requires
            start <= end <= s.len(),
        ensures
            outcome(
                process_text(s@, start as int, end as int, old(self).out@, views(old(self).blocks@)),
                r,
                final(self).state(),
            ),
    {
        push_str(&mut self.out, "_c.push_str(\"");
        self.pos = start;
        let r = self.scan(s, end, false, false);
        if r.is_err() {
            return r;
        }
        push_str(&mut self.out, "\");");
        self.pos = end;
        Ok(())
    }
}

} // verus!
