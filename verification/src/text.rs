//! Characters of a line and the whitespace-separated tokens they form.

use vstd::prelude::*;

verus! {

/// Whether `c` separates tokens: the characters that Unicode gives the property White_Space.
pub open spec fn is_whitespace(c: char) -> bool {
    let n = c as u32;
    ||| 0x09 <= n <= 0x0D
    ||| n == 0x20
    ||| n == 0x85
    ||| n == 0xA0
    ||| n == 0x1680
    ||| 0x2000 <= n <= 0x200A
    ||| n == 0x2028
    ||| n == 0x2029
    ||| n == 0x202F
    ||| n == 0x205F
    ||| n == 0x3000
}

/// How many characters of `s` come before its first whitespace character, or before its end.
pub open spec fn run_len(s: Seq<char>) -> nat
    decreases s.len(),
{
    if s.len() == 0 || is_whitespace(s[0]) {
        0
    } else {
        1 + run_len(s.drop_first())
    }
}

/// The tokens of a line: its maximal runs of characters that are not
/// whitespace, from left to right.
pub open spec fn tokens(s: Seq<char>) -> Seq<Seq<char>>
    decreases s.len(),
{
    if s.len() == 0 {
        Seq::empty()
    } else if is_whitespace(s[0]) {
        tokens(s.drop_first())
    } else {
        proof {
            lemma_run_len(s);
        }
        seq![s.take(run_len(s) as int)] + tokens(s.skip(run_len(s) as int))
    }
}

/// The views of a sequence of string slices.
pub open spec fn slice_views(slices: Seq<&str>) -> Seq<Seq<char>> {
    Seq::new(slices.len(), |i: int| slices[i]@)
}

/// A run ends inside the sequence, holds no whitespace, and stops at whitespace or at the end.
pub proof fn lemma_run_len(s: Seq<char>)
    ensures
        run_len(s) <= s.len(),
        s.len() > 0 && !is_whitespace(s[0]) ==> run_len(s) >= 1,
        forall|i: int| 0 <= i < run_len(s) ==> !is_whitespace(#[trigger] s[i]),
        run_len(s) < s.len() ==> is_whitespace(s[run_len(s) as int]),
    decreases s.len(),
{
    if s.len() == 0 || is_whitespace(s[0]) {
    } else {
        let rest = s.drop_first();
        lemma_run_len(rest);
        assert forall|i: int| 0 <= i < run_len(s) implies !is_whitespace(#[trigger] s[i]) by {
            if i > 0 {
                assert(s[i] == rest[i - 1]);
            }
        }
        if run_len(s) < s.len() {
            assert(s[run_len(s) as int] == rest[run_len(rest) as int]);
        }
    }
}

/// Whether `c` is whitespace.
pub fn is_whitespace_char(c: char) -> (b: bool)
    ensures
        b == is_whitespace(c),
{
    let n: u32 = c as u32;
    (0x09 <= n && n <= 0x0D) || n == 0x20 || n == 0x85 || n == 0xA0 || n == 0x1680 || (0x2000 <= n
        && n <= 0x200A) || n == 0x2028 || n == 0x2029 || n == 0x202F || n == 0x205F || n == 0x3000
}

/// The characters of a string, in order.
pub fn chars_of(s: &str) -> (chars: Vec<char>)
    ensures
        chars@ == s@,
{
    let mut chars: Vec<char> = Vec::new();
    for c in it: s.chars()
        invariant
            it.seq() == s@,
            chars@ == s@.take(it.index()),
    {
        chars.push(c);
        assert(s@.take(it.index() + 1) =~= s@.take(it.index()).push(c));
    }
    assert(s@.take(s@.len() as int) =~= s@);
    chars
}

/// Splits a line into its tokens.
pub fn tokenize(line: &str) -> (toks: Vec<&str>)
    ensures
        slice_views(toks@) == tokens(line@),
{
    let chars = chars_of(line);
    let n = chars.len();
    let mut toks: Vec<&str> = Vec::new();
    let mut i: usize = 0;
    assert(line@.skip(0) =~= line@);
    while i < n
        invariant
            chars@ == line@,
            n == chars.len(),
            i <= n,
            tokens(line@) == slice_views(toks@) + tokens(line@.skip(i as int)),
        decreases n - i,
    {
        let ghost rest = line@.skip(i as int);
        assert(rest.drop_first() =~= line@.skip(i + 1));
        if is_whitespace_char(chars[i]) {
            i += 1;
        } else {
            let start = i;
            proof {
                lemma_run_len(rest);
            }
            while i < n && !is_whitespace_char(chars[i])
                invariant
                    chars@ == line@,
                    n == chars.len(),
                    start <= i <= n,
                    rest == line@.skip(start as int),
                    run_len(rest) == (i - start) + run_len(line@.skip(i as int)),
                decreases n - i,
            {
                assert(line@.skip(i as int).drop_first() =~= line@.skip(i + 1));
                i += 1;
            }
            let tok = line.substring_char(start, i);
            proof {
                assert(run_len(line@.skip(i as int)) == 0);
                assert(rest.take(run_len(rest) as int) =~= line@.subrange(start as int, i as int));
                assert(rest.skip(run_len(rest) as int) =~= line@.skip(i as int));
                assert(slice_views(toks@.push(tok)) =~= slice_views(toks@) + seq![tok@]);
            }
            toks.push(tok);
        }
    }
    proof {
        assert(line@.skip(n as int) =~= Seq::<char>::empty());
        assert(slice_views(toks@) + Seq::<Seq<char>>::empty() =~= slice_views(toks@));
    }
    toks
}

} // verus!
