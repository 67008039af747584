//! Executable searches over a template's characters, each the counterpart of
//! a spec function of `grammar`.

use vstd::prelude::*;
use crate::grammar::{block_close, code_close, expr_close, find_from, name_end, paren_close, past, word_end};

verus! {

/// The first index in `[p, end)` that holds `c`, or `end`.
pub fn find(s: &Vec<char>, p: usize, end: usize, c: char) -> (r: usize)
    requires
        p <= end <= s.len(),
    ensures
        r == find_from(s@, p as int, end as int, c),
        p <= r <= end,
{
    let mut i: usize = p;
    while i < end && s[i] != c
        invariant
            p <= i <= end <= s.len(),
            find_from(s@, i as int, end as int, c) == find_from(s@, p as int, end as int, c),
        decreases end - i,
    {
        i = i + 1;
    }
    i
}

/// Moves `pos` past the next `c`, or to `end` where there is none.
pub fn skip(s: &Vec<char>, pos: &mut usize, end: usize, c: char)
    requires
        *old(pos) <= end <= s.len(),
    ensures
        *final(pos) == past(find_from(s@, *old(pos) as int, end as int, c), end as int),
{
    let i = find(s, *pos, end, c);
    *pos = if i < end {
        i + 1
    } else {
        end
    };
}

/// The characters before the next `c` (or up to `end`); `pos` moves past it.
pub fn collect(s: &Vec<char>, pos: &mut usize, end: usize, c: char) -> (r: Vec<char>)
    requires
        *old(pos) <= end <= s.len(),
    ensures
        r@ == s@.subrange(*old(pos) as int, find_from(s@, *old(pos) as int, end as int, c)),
        *final(pos) == past(find_from(s@, *old(pos) as int, end as int, c), end as int),
{
    let i = find(s, *pos, end, c);
    let r = crate::text::range_of(s, *pos, i);
    *pos = if i < end {
        i + 1
    } else {
        end
    };
    r
}

/// The first index in `[p, end)` that ends a word, or `end`.
pub fn find_word_end(s: &Vec<char>, p: usize, end: usize) -> (r: usize)
    requires
        p <= end <= s.len(),
    ensures
        r == word_end(s@, p as int, end as int),
        p <= r <= end,
{
    let mut i: usize = p;
    while i < end && !(s[i] == ' ' || s[i] == '<' || s[i] == '\n' || s[i] == '(' || s[i] == '/'
        || s[i] == '"')
        invariant
            p <= i <= end <= s.len(),
            word_end(s@, i as int, end as int) == word_end(s@, p as int, end as int),
        decreases end - i,
    {
        i = i + 1;
    }
    i
}

/// The first index in `[p, end)` that ends a directive's name, or `end`.
pub fn collect_name(s: &Vec<char>, p: usize, end: usize) -> (r: usize)
    requires
        p <= end <= s.len(),
    ensures
        r == name_end(s@, p as int, end as int),
        p <= r <= end,
{
    let mut i: usize = p;
    while i < end && !(s[i] == ' ' || s[i] == '<' || s[i] == '\n' || s[i] == '{')
        invariant
            p <= i <= end <= s.len(),
            name_end(s@, i as int, end as int) == name_end(s@, p as int, end as int),
        decreases end - i,
    {
        i = i + 1;
    }
    i
}

/// The index of the `)` that closes the parenthesis just before `p`,
/// counting parentheses only, or `end`.
pub fn find_expr_close(s: &Vec<char>, p: usize, end: usize) -> (r: usize)
    requires
        p <= end <= s.len(),
    ensures
        r == expr_close(s@, p as int, end as int, 0),
        p <= r <= end,
{
    let mut i: usize = p;
    let mut depth: usize = 0;
    while i < end
        invariant
            p <= i <= end <= s.len(),
            depth <= i - p,
            expr_close(s@, i as int, end as int, depth as nat) == expr_close(
                s@,
                p as int,
                end as int,
                0,
            ),
        decreases end - i,
    {
        if s[i] == ')' {
            if depth == 0 {
                return i;
            }
            depth = depth - 1;
        } else if s[i] == '(' {
            depth = depth + 1;
        }
        i = i + 1;
    }
    i
}

/// The index of the `)` that closes an argument list begun just before `p`,
/// skipping what stands inside string literals, or `end`.
pub fn collect_paren(s: &Vec<char>, p: usize, end: usize) -> (r: usize)
    requires
        p <= end <= s.len(),
    ensures
        r == paren_close(s@, p as int, end as int, 0, false),
        p <= r <= end,
{
    let mut i: usize = p;
    let mut depth: usize = 0;
    let mut quote = false;
    while i < end
        invariant
            p <= i <= end <= s.len(),
            depth <= i - p,
            paren_close(s@, i as int, end as int, depth as nat, quote) == paren_close(
                s@,
                p as int,
                end as int,
                0,
                false,
            ),
        decreases end - i,
    {
        let c = s[i];
        if quote {
            if c == '\\' {
                if i + 1 >= end {
                    return end;
                }
                i = i + 2;
            } else {
                quote = c != '"';
                i = i + 1;
            }
        } else {
            if c == ')' {
                if depth == 0 {
                    return i;
                }
                depth = depth - 1;
            } else if c == '(' {
                depth = depth + 1;
            } else {
                quote = c == '"';
            }
            i = i + 1;
        }
    }
    i
}

/// The index of the `}` that closes a code splice begun just before `p`,
/// skipping what stands inside string literals, or `end`.
pub fn find_code_close(s: &Vec<char>, p: usize, end: usize) -> (r: usize)
    requires
        p <= end <= s.len(),
    ensures
        r == code_close(s@, p as int, end as int, 0, false),
        p <= r <= end,
{
    let mut i: usize = p;
    let mut depth: usize = 0;
    let mut quote = false;
    while i < end
        invariant
            p <= i <= end <= s.len(),
            depth <= i - p,
            code_close(s@, i as int, end as int, depth as nat, quote) == code_close(
                s@,
                p as int,
                end as int,
                0,
                false,
            ),
        decreases end - i,
    {
        let c = s[i];
        if quote {
            if c == '\\' {
                if i + 1 >= end {
                    return end;
                }
                i = i + 2;
            } else {
                quote = c != '"';
                i = i + 1;
            }
        } else {
            if c == '}' {
                if depth == 0 {
                    return i;
                }
                depth = depth - 1;
            } else if c == '{' {
                depth = depth + 1;
            } else {
                quote = c == '"';
            }
            i = i + 1;
        }
    }
    i
}

/// The index where an inherited block's body that starts at `p` ends, or
/// `end`.
pub fn get_block(s: &Vec<char>, p: usize, end: usize) -> (r: usize)
    requires
        p <= end <= s.len(),
    ensures
        r == block_close(s@, p as int, end as int, 0, false),
        p <= r <= end,
{
    let mut i: usize = p;
    let mut depth: usize = 0;
    let mut quote = false;
    while i < end
        invariant
            p <= i <= end <= s.len(),
            depth <= i - p,
            block_close(s@, i as int, end as int, depth as nat, quote) == block_close(
                s@,
                p as int,
                end as int,
                0,
                false,
            ),
        decreases end - i,
    {
        let c = s[i];
        if c == '\\' {
            i = if i + 1 < end {
                i + 2
            } else {
                i + 1
            };
        } else if quote {
            quote = c != '"';
            i = i + 1;
        } else if c == '{' {
            depth = depth + 1;
            i = i + 1;
        } else if c == '}' {
            if depth == 0 {
                return i;
            }
            depth = depth - 1;
            i = i + 1;
        } else if c == '"' {
            quote = true;
            i = i + 1;
        } else if c == '\n' && i + 1 < end {
            if s[i + 1] == '}' {
                if depth == 0 {
                    return i;
                }
                depth = depth - 1;
            }
            i = i + 2;
        } else {
            i = i + 1;
        }
    }
    i
}

} // verus!
