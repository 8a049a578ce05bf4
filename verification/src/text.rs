//! Splitting a raw input line into whitespace-delimited tokens, and trimming
//! the whitespace around a line. No quoting or escaping: operator characters
//! count only when they stand as tokens of their own.

use vstd::prelude::*;

verus! {

/// Whether a character counts as whitespace, as `char::is_whitespace`
/// decides it.
pub uninterp spec fn is_space(c: char) -> bool;

/// Relies on `char::is_whitespace`: whether the character has the Unicode
/// `White_Space` property. The result depends on the character alone.
#[verifier::external_body]
fn is_space_char(c: char) -> (r: bool)
    ensures
        r == is_space(c),
{
    c.is_whitespace()
}

/// One left-to-right scan splitting on whitespace, carrying the token
/// accumulated so far: whitespace finishes the current token, if any, and
/// any other character extends it. A token is never empty.
pub open spec fn tok_loop(s: Seq<char>, cur: Seq<char>) -> Seq<Seq<char>>
    decreases s.len(),
{
    if s.len() == 0 {
        if cur.len() > 0 {
            seq![cur]
        } else {
            Seq::empty()
        }
    } else if is_space(s[0]) {
        (if cur.len() > 0 {
            seq![cur]
        } else {
            Seq::empty()
        }) + tok_loop(s.skip(1), Seq::empty())
    } else {
        tok_loop(s.skip(1), cur.push(s[0]))
    }
}

/// The tokens of a line: its maximal runs of non-whitespace characters, in
/// order. An empty line, or one of whitespace only, has no tokens.
pub open spec fn spec_tokenize(s: Seq<char>) -> Seq<Seq<char>> {
    tok_loop(s, Seq::empty())
}

/// Splits a line into whitespace-delimited tokens: the non-empty maximal
/// runs of non-whitespace characters, in order.
pub fn tokenize(line: &str) -> (tokens: Vec<String>)
    ensures
        tokens.deep_view() == spec_tokenize(line@),
{
    let n = line.unicode_len();
    let mut tokens: Vec<String> = Vec::new();
    let mut i: usize = 0;
    let mut start: usize = 0;

    proof {
        assert(line@.skip(0) =~= line@);
        assert(line@.subrange(0, 0) =~= Seq::<char>::empty());
        assert(tokens.deep_view() =~= Seq::<Seq<char>>::empty());
        assert(Seq::<Seq<char>>::empty() + spec_tokenize(line@) =~= spec_tokenize(line@));
    }

    while i < n
        invariant
            n == line@.len(),
            start <= i <= n,
            tokens.deep_view() + tok_loop(
                line@.skip(i as int),
                line@.subrange(start as int, i as int),
            ) == spec_tokenize(line@),
        decreases n - i,
    {
        let ghost rem = line@.skip(i as int);
        let ghost cur = line@.subrange(start as int, i as int);
        let c = line.get_char(i);
        proof {
            assert(rem[0] == line@[i as int]);
        }
        if is_space_char(c) {
            let ghost head: Seq<Seq<char>> = if cur.len() > 0 {
                seq![cur]
            } else {
                Seq::empty()
            };
            proof {
                assert(rem.skip(1) =~= line@.skip(i + 1));
                assert(tok_loop(rem, cur) == head + tok_loop(line@.skip(i + 1), Seq::empty()));
            }
            if i > start {
                let ghost b = tokens.deep_view();
                tokens.push(line.substring_char(start, i).to_owned());
                proof {
                    assert(tokens.deep_view() =~= b.push(cur));
                    assert(tokens.deep_view() =~= b + head);
                }
            } else {
                proof {
                    assert(cur.len() == 0);
                    assert(tokens.deep_view() + head =~= tokens.deep_view());
                }
            }
            proof {
                assert(line@.subrange(i + 1, i + 1) =~= Seq::<char>::empty());
            }
            i = i + 1;
            start = i;
        } else {
            proof {
                assert(rem.skip(1) =~= line@.skip(i + 1));
                assert(line@.subrange(start as int, i + 1) =~= cur.push(line@[i as int]));
                assert(tok_loop(rem, cur) == tok_loop(
                    line@.skip(i + 1),
                    line@.subrange(start as int, i + 1),
                ));
            }
            i = i + 1;
        }
    }

    let ghost cur = line@.subrange(start as int, i as int);
    proof {
        assert(line@.skip(i as int).len() == 0);
    }
    if i > start {
        let ghost b = tokens.deep_view();
        tokens.push(line.substring_char(start, i).to_owned());
        proof {
            assert(tokens.deep_view() =~= b.push(cur));
            assert(tok_loop(line@.skip(i as int), cur) == seq![cur]);
            assert(b + seq![cur] =~= b.push(cur));
        }
    } else {
        proof {
            assert(cur.len() == 0);
            assert(tok_loop(line@.skip(i as int), cur) =~= Seq::<Seq<char>>::empty());
            assert(tokens.deep_view() + Seq::<Seq<char>>::empty() =~= tokens.deep_view());
        }
    }
    tokens
}

/// A sequence without its leading whitespace.
pub open spec fn trim_start(s: Seq<char>) -> Seq<char>
    decreases s.len(),
{
    if s.len() > 0 && is_space(s[0]) {
        trim_start(s.skip(1))
    } else {
        s
    }
}

/// A sequence without its trailing whitespace.
pub open spec fn trim_end(s: Seq<char>) -> Seq<char>
    decreases s.len(),
{
    if s.len() > 0 && is_space(s.last()) {
        trim_end(s.drop_last())
    } else {
        s
    }
}

/// A sequence without its leading and trailing whitespace.
pub open spec fn spec_trim(s: Seq<char>) -> Seq<char> {
    trim_end(trim_start(s))
}

/// Removes the whitespace at both ends of a line.
pub fn trim_line(line: &str) -> (r: String)
    ensures
        r@ == spec_trim(line@),
{
    let n = line.unicode_len();
    let mut lo: usize = 0;

    proof {
        assert(line@.skip(0) =~= line@);
    }
    while lo < n && is_space_char(line.get_char(lo))
        invariant
            n == line@.len(),
            lo <= n,
            trim_start(line@) == trim_start(line@.skip(lo as int)),
        decreases n - lo,
    {
        proof {
            let rem = line@.skip(lo as int);
            assert(rem[0] == line@[lo as int]);
            assert(rem.skip(1) =~= line@.skip(lo + 1));
        }
        lo = lo + 1;
    }
    proof {
        let rem = line@.skip(lo as int);
        if lo < n {
            assert(rem[0] == line@[lo as int]);
        }
        assert(trim_start(rem) == rem);
        assert(rem =~= line@.subrange(lo as int, n as int));
    }

    let mut hi: usize = n;
    while hi > lo && is_space_char(line.get_char(hi - 1))
        invariant
            n == line@.len(),
            lo <= hi <= n,
            trim_end(line@.subrange(lo as int, n as int)) == trim_end(
                line@.subrange(lo as int, hi as int),
            ),
        decreases hi,
    {
        proof {
            let seg = line@.subrange(lo as int, hi as int);
            assert(seg.last() == line@[hi - 1]);
            assert(seg.drop_last() =~= line@.subrange(lo as int, hi - 1));
        }
        hi = hi - 1;
    }
    proof {
        let seg = line@.subrange(lo as int, hi as int);
        if hi > lo {
            assert(seg.last() == line@[hi - 1]);
        }
        assert(trim_end(seg) == seg);
    }

    line.substring_char(lo, hi).to_owned()
}

} // verus!
