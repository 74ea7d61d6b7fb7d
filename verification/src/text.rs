//! Splitting of pattern text: newline normalization, blank-line separated
//! blocks, and newline separated rows.
//!
//! Each executable function is proved against a recursive specification that
//! scans the character sequence from the front, so the splitting rules are
//! stated once and the loops are held to them.

use vstd::prelude::*;

verus! {

/// The text with every carriage-return+line-feed pair replaced by a single
/// line feed, scanning left to right.
pub open spec fn norm_crlf(s: Seq<char>) -> Seq<char>
    decreases s.len(),
{
    if s.len() >= 2 && s[0] == '\r' && s[1] == '\n' {
        seq!['\n'] + norm_crlf(s.skip(2))
    } else if s.len() >= 1 {
        seq![s[0]] + norm_crlf(s.skip(1))
    } else {
        Seq::empty()
    }
}

/// The text split on blank lines (two consecutive line feeds), scanning
/// left to right with `cur` the piece collected so far. Always yields at
/// least one piece.
pub open spec fn split_blocks(s: Seq<char>, cur: Seq<char>) -> Seq<Seq<char>>
    decreases s.len(),
{
    if s.len() >= 2 && s[0] == '\n' && s[1] == '\n' {
        seq![cur] + split_blocks(s.skip(2), Seq::empty())
    } else if s.len() >= 1 {
        split_blocks(s.skip(1), cur.push(s[0]))
    } else {
        seq![cur]
    }
}

/// The text split on single line feeds, scanning left to right with `cur`
/// the piece collected so far. Always yields at least one piece.
pub open spec fn split_lines(s: Seq<char>, cur: Seq<char>) -> Seq<Seq<char>>
    decreases s.len(),
{
    if s.len() >= 1 {
        if s[0] == '\n' {
            seq![cur] + split_lines(s.skip(1), Seq::empty())
        } else {
            split_lines(s.skip(1), cur.push(s[0]))
        }
    } else {
        seq![cur]
    }
}

/// The pieces of a sequence of rows, joined back to back in order.
pub open spec fn flatten_seqs(ls: Seq<Seq<char>>) -> Seq<char>
    decreases ls.len(),
{
    if ls.len() == 0 {
        Seq::empty()
    } else {
        flatten_seqs(ls.drop_last()) + ls.last()
    }
}

/// Splitting yields at least one piece, whatever the text.
pub proof fn lemma_split_blocks_nonempty(s: Seq<char>, cur: Seq<char>)
    ensures
        split_blocks(s, cur).len() >= 1,
    decreases s.len(),
{
    if s.len() >= 2 && s[0] == '\n' && s[1] == '\n' {
    } else if s.len() >= 1 {
        lemma_split_blocks_nonempty(s.skip(1), cur.push(s[0]));
    }
}

/// Splitting on line feeds yields at least one piece, whatever the text.
pub proof fn lemma_split_lines_nonempty(s: Seq<char>, cur: Seq<char>)
    ensures
        split_lines(s, cur).len() >= 1,
    decreases s.len(),
{
    if s.len() >= 1 && s[0] != '\n' {
        lemma_split_lines_nonempty(s.skip(1), cur.push(s[0]));
    }
}

/// Collects the characters of a string slice into a vector.
pub fn chars_of(s: &str) -> (r: Vec<char>)
    ensures
        r@ == s@,
{
    let n = s.unicode_len();
    let mut out: Vec<char> = Vec::new();
    let mut i: usize = 0;
    while i < n
        invariant
            n == s@.len(),
            i <= n,
            out@ == s@.take(i as int),
        decreases n - i,
    {
        let c = s.get_char(i);
        out.push(c);
        proof {
            assert(out@ =~= s@.take(i + 1));
        }
        i = i + 1;
    }
    proof {
        assert(out@ =~= s@);
    }
    out
}

/// Replaces every carriage-return+line-feed pair by a single line feed.
pub fn normalize_newlines(v: &Vec<char>) -> (r: Vec<char>)
    ensures
        r@ == norm_crlf(v@),
{
    let n = v.len();
    let mut out: Vec<char> = Vec::new();
    let mut i: usize = 0;
    proof {
        assert(v@.skip(0) =~= v@);
        assert(out@ + norm_crlf(v@) =~= norm_crlf(v@));
    }
    while i < n
        invariant
            n == v@.len(),
            i <= n,
            norm_crlf(v@) == out@ + norm_crlf(v@.skip(i as int)),
        decreases n - i,
    {
        let ghost rest = v@.skip(i as int);
        if v[i] == '\r' && i + 1 < n && v[i + 1] == '\n' {
            out.push('\n');
            proof {
                assert(rest.len() >= 2 && rest[0] == '\r' && rest[1] == '\n');
                assert(rest.skip(2) =~= v@.skip(i + 2));
                assert(out@ + norm_crlf(v@.skip(i + 2)) =~= norm_crlf(v@));
            }
            i = i + 2;
        } else {
            out.push(v[i]);
            proof {
                assert(rest.len() >= 1 && rest[0] == v@[i as int]);
                assert(!(rest.len() >= 2 && rest[0] == '\r' && rest[1] == '\n'));
                assert(rest.skip(1) =~= v@.skip(i + 1));
                assert(out@ + norm_crlf(v@.skip(i + 1)) =~= norm_crlf(v@));
            }
            i = i + 1;
        }
    }
    proof {
        assert(v@.skip(n as int) =~= Seq::<char>::empty());
        assert(out@ =~= norm_crlf(v@));
    }
    out
}

/// Splits on blank lines (two consecutive line feeds).
pub fn split_double_newline(v: &Vec<char>) -> (r: Vec<Vec<char>>)
    ensures
        r.deep_view() == split_blocks(v@, Seq::empty()),
        r@.len() >= 1,
{
    let n = v.len();
    let mut done: Vec<Vec<char>> = Vec::new();
    let mut cur: Vec<char> = Vec::new();
    let mut i: usize = 0;
    proof {
        assert(v@.skip(0) =~= v@);
        assert(done.deep_view() =~~= Seq::<Seq<char>>::empty());
        assert(done.deep_view() + split_blocks(v@, cur@) =~~= split_blocks(v@, cur@));
    }
    while i < n
        invariant
            n == v@.len(),
            i <= n,
            split_blocks(v@, Seq::empty()) == done.deep_view() + split_blocks(
                v@.skip(i as int),
                cur@,
            ),
        decreases n - i,
    {
        let ghost rest = v@.skip(i as int);
        let ghost dprev = done.deep_view();
        let ghost cprev = cur@;
        if v[i] == '\n' && i + 1 < n && v[i + 1] == '\n' {
            done.push(cur);
            cur = Vec::new();
            proof {
                assert(rest.len() >= 2 && rest[0] == '\n' && rest[1] == '\n');
                assert(rest.skip(2) =~= v@.skip(i + 2));
                assert(done.deep_view() =~~= dprev.push(cprev));
                assert(dprev.push(cprev) + split_blocks(v@.skip(i + 2), cur@) =~~= dprev + (
                seq![cprev] + split_blocks(v@.skip(i + 2), Seq::empty())));
                assert(done.deep_view() + split_blocks(v@.skip(i + 2), cur@) =~~= split_blocks(
                    v@,
                    Seq::empty(),
                ));
            }
            i = i + 2;
        } else {
            let c = v[i];
            cur.push(c);
            proof {
                assert(rest.len() >= 1 && rest[0] == v@[i as int]);
                assert(!(rest.len() >= 2 && rest[0] == '\n' && rest[1] == '\n'));
                assert(rest.skip(1) =~= v@.skip(i + 1));
                assert(cur@ == cprev.push(v@[i as int]));
                assert(done.deep_view() + split_blocks(v@.skip(i + 1), cur@) =~~= split_blocks(
                    v@,
                    Seq::empty(),
                ));
            }
            i = i + 1;
        }
    }
    let ghost dprev = done.deep_view();
    let ghost cprev = cur@;
    done.push(cur);
    proof {
        assert(v@.skip(n as int) =~= Seq::<char>::empty());
        assert(split_blocks(v@.skip(n as int), cprev) =~~= seq![cprev]);
        assert(done.deep_view() =~~= dprev.push(cprev));
        assert(done.deep_view() =~~= split_blocks(v@, Seq::empty()));
        lemma_split_blocks_nonempty(v@, Seq::empty());
    }
    done
}

/// Splits on single line feeds.
pub fn split_newline(v: &Vec<char>) -> (r: Vec<Vec<char>>)
    ensures
        r.deep_view() == split_lines(v@, Seq::empty()),
        r@.len() >= 1,
{
    let n = v.len();
    let mut done: Vec<Vec<char>> = Vec::new();
    let mut cur: Vec<char> = Vec::new();
    let mut i: usize = 0;
    proof {
        assert(v@.skip(0) =~= v@);
        assert(done.deep_view() =~~= Seq::<Seq<char>>::empty());
        assert(done.deep_view() + split_lines(v@, cur@) =~~= split_lines(v@, cur@));
    }
    while i < n
        invariant
            n == v@.len(),
            i <= n,
            split_lines(v@, Seq::empty()) == done.deep_view() + split_lines(
                v@.skip(i as int),
                cur@,
            ),
        decreases n - i,
    {
        let ghost rest = v@.skip(i as int);
        let ghost dprev = done.deep_view();
        let ghost cprev = cur@;
        if v[i] == '\n' {
            done.push(cur);
            cur = Vec::new();
            proof {
                assert(rest.len() >= 1 && rest[0] == '\n');
                assert(rest.skip(1) =~= v@.skip(i + 1));
                assert(done.deep_view() =~~= dprev.push(cprev));
                assert(dprev.push(cprev) + split_lines(v@.skip(i + 1), cur@) =~~= dprev + (
                seq![cprev] + split_lines(v@.skip(i + 1), Seq::empty())));
                assert(done.deep_view() + split_lines(v@.skip(i + 1), cur@) =~~= split_lines(
                    v@,
                    Seq::empty(),
                ));
            }
        } else {
            let c = v[i];
            cur.push(c);
            proof {
                assert(rest.len() >= 1 && rest[0] == v@[i as int]);
                assert(rest.skip(1) =~= v@.skip(i + 1));
                assert(cur@ == cprev.push(v@[i as int]));
                assert(done.deep_view() + split_lines(v@.skip(i + 1), cur@) =~~= split_lines(
                    v@,
                    Seq::empty(),
                ));
            }
        }
        i = i + 1;
    }
    let ghost dprev = done.deep_view();
    let ghost cprev = cur@;
    done.push(cur);
    proof {
        assert(v@.skip(n as int) =~= Seq::<char>::empty());
        assert(split_lines(v@.skip(n as int), cprev) =~~= seq![cprev]);
        assert(done.deep_view() =~~= dprev.push(cprev));
        assert(done.deep_view() =~~= split_lines(v@, Seq::empty()));
        lemma_split_lines_nonempty(v@, Seq::empty());
    }
    done
}

/// Joins a vector of rows back to back, in order.
pub fn flatten_rows(rows: &Vec<Vec<char>>) -> (r: Vec<char>)
    ensures
        r@ == flatten_seqs(rows.deep_view()),
{
    let mut out: Vec<char> = Vec::new();
    let mut j: usize = 0;
    proof {
        assert(rows.deep_view().take(0) =~~= Seq::<Seq<char>>::empty());
    }
    while j < rows.len()
        invariant
            j <= rows@.len(),
            rows.deep_view().len() == rows@.len(),
            out@ == flatten_seqs(rows.deep_view().take(j as int)),
        decreases rows@.len() - j,
    {
        let row = &rows[j];
        let mut k: usize = 0;
        proof {
            assert(row@.take(0) =~= Seq::<char>::empty());
            assert(out@ + row@.take(0) =~= out@);
            assert(rows.deep_view()[j as int] == rows@[j as int]@);
        }
        while k < row.len()
            invariant
                j < rows@.len(),
                rows.deep_view().len() == rows@.len(),
                k <= row@.len(),
                row@ == rows.deep_view()[j as int],
                out@ == flatten_seqs(rows.deep_view().take(j as int)) + row@.take(k as int),
            decreases row@.len() - k,
        {
            out.push(row[k]);
            proof {
                assert(row@.take(k + 1) =~= row@.take(k as int).push(row@[k as int]));
                assert(out@ =~= flatten_seqs(rows.deep_view().take(j as int)) + row@.take(k + 1));
            }
            k = k + 1;
        }
        proof {
            let dv = rows.deep_view();
            assert(row@.take(row@.len() as int) =~= row@);
            assert(dv.take(j + 1).drop_last() =~~= dv.take(j as int));
            assert(dv.take(j + 1).last() == dv[j as int]);
            assert(out@ =~= flatten_seqs(dv.take(j + 1)));
        }
        j = j + 1;
    }
    proof {
        assert(rows.deep_view().take(rows@.len() as int) =~= rows.deep_view());
    }
    out
}

} // verus!
