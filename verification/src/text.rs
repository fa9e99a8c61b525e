//! Character-level helpers on `str`: equality and ASCII whitespace.

use vstd::prelude::*;

verus! {

/// ASCII whitespace as `char::is_ascii_whitespace` defines it:
/// space, tab, line feed, form feed and carriage return.
pub open spec fn is_ascii_ws(c: char) -> bool {
    c == ' ' || c == '\t' || c == '\n' || c == '\x0C' || c == '\r'
}

pub fn is_ascii_whitespace(c: char) -> (r: bool)
    ensures
        r == is_ascii_ws(c),
{
    c == ' ' || c == '\t' || c == '\n' || c == '\x0C' || c == '\r'
}

/// What has been read after the characters of `s`: the finished tokens and
/// the token being read.
pub open spec fn split_state(s: Seq<char>) -> (Seq<Seq<char>>, Seq<char>)
    decreases s.len(),
{
    if s.len() == 0 {
        (Seq::empty(), Seq::empty())
    } else {
        let (done, cur) = split_state(s.drop_last());
        let c = s.last();
        if is_ascii_ws(c) {
            if cur.len() > 0 {
                (done.push(cur), Seq::empty())
            } else {
                (done, Seq::empty())
            }
        } else {
            (done, cur.push(c))
        }
    }
}

/// The maximal runs of non-whitespace characters of `s`, in order, as
/// `str::split_ascii_whitespace` yields them.
pub open spec fn split_ascii_ws(s: Seq<char>) -> Seq<Seq<char>> {
    let (done, cur) = split_state(s);
    if cur.len() > 0 {
        done.push(cur)
    } else {
        done
    }
}

/// `s` is not empty and holds only ASCII whitespace.
pub open spec fn is_blank(s: Seq<char>) -> bool {
    s.len() > 0 && forall|i: int| 0 <= i < s.len() ==> is_ascii_ws(#[trigger] s[i])
}

/// A string with no token holds only whitespace.
pub proof fn lemma_no_tokens_means_blank(s: Seq<char>)
    ensures
        split_ascii_ws(s).len() == 0 ==> forall|i: int| 0 <= i < s.len() ==> is_ascii_ws(#[trigger] s[i]),
{
    lemma_empty_state_means_blank(s);
}

proof fn lemma_empty_state_means_blank(s: Seq<char>)
    ensures
        split_state(s).0.len() == 0 && split_state(s).1.len() == 0 ==> forall|i: int|
            0 <= i < s.len() ==> is_ascii_ws(#[trigger] s[i]),
    decreases s.len(),
{
    if s.len() > 0 {
        lemma_empty_state_means_blank(s.drop_last());
        if split_state(s).0.len() == 0 && split_state(s).1.len() == 0 {
            assert forall|i: int| 0 <= i < s.len() implies is_ascii_ws(#[trigger] s[i]) by {
                if i < s.len() - 1 {
                    assert(s[i] == s.drop_last()[i]);
                }
            }
        }
    }
}

/// The whitespace characters are the space and the control characters from
/// tab to carriage return but the vertical tab; every printable character
/// and every character beyond ASCII belongs to a word.
pub proof fn lemma_ascii_ws_chars(c: char)
    ensures
        is_ascii_ws(c) <==> (c == ' ' || ('\t' <= c && c <= '\r' && c != '\x0B')),
        ' ' < c ==> !is_ascii_ws(c),
{
}

/// Reading characters that are all above the space onto a state with no
/// word under way starts one word made of exactly them.
proof fn lemma_split_state_word(s: Seq<char>, a: Seq<char>)
    requires
        split_state(s).1.len() == 0,
        a.len() > 0,
        forall|i: int| 0 <= i < a.len() ==> ' ' < #[trigger] a[i],
    ensures
        split_state(s + a) == (split_state(s).0, a),
    decreases a.len(),
{
    assert((s + a).drop_last() =~= s + a.drop_last());
    assert((s + a).last() == a.last());
    lemma_ascii_ws_chars(a.last());
    if a.len() == 1 {
        assert(s + a.drop_last() =~= s);
        assert(Seq::<char>::empty().push(a.last()) =~= a);
    } else {
        lemma_split_state_word(s, a.drop_last());
        assert(a.drop_last().push(a.last()) =~= a);
    }
}

/// Two words made of characters above the space, with one space between
/// them, split into exactly those two words.
pub proof fn lemma_split_two_words(w: Seq<char>, a: Seq<char>)
    requires
        w.len() > 0,
        a.len() > 0,
        forall|i: int| 0 <= i < w.len() ==> ' ' < #[trigger] w[i],
        forall|i: int| 0 <= i < a.len() ==> ' ' < #[trigger] a[i],
    ensures
        split_ascii_ws(w + " "@ + a) == seq![w, a],
{
    reveal_strlit(" ");
    let e = Seq::<char>::empty();
    assert(split_state(e) == (Seq::<Seq<char>>::empty(), e));
    lemma_split_state_word(e, w);
    assert(e + w =~= w);
    let ws = w + " "@;
    assert(ws.drop_last() =~= w);
    assert(ws.last() == ' ');
    assert(split_state(ws) == (seq![w], e));
    lemma_split_state_word(ws, a);
    assert(split_state(ws + a) == (seq![w], a));
    assert(seq![w].push(a) =~= seq![w, a]);
}

/// Splits `s` at ASCII whitespace, as `str::split_ascii_whitespace` does.
pub fn split_ascii_whitespace(s: &str) -> (r: Vec<&str>)
    ensures
        r@.len() == split_ascii_ws(s@).len(),
        forall|k: int| 0 <= k < r@.len() ==> (#[trigger] r@[k])@ == split_ascii_ws(s@)[k],
{
    let n = s.unicode_len();
    let mut r: Vec<&str> = Vec::new();
    let mut start: usize = 0;
    let mut i: usize = 0;
    while i < n
        invariant
            n == s@.len(),
            start <= i <= n,
            r@.len() == split_state(s@.take(i as int)).0.len(),
            forall|k: int| 0 <= k < r@.len() ==> (#[trigger] r@[k])@ == split_state(s@.take(i as int)).0[k],
            s@.subrange(start as int, i as int) == split_state(s@.take(i as int)).1,
        decreases n - i,
    {
        let c = s.get_char(i);
        assert(s@.take(i + 1).drop_last() =~= s@.take(i as int));
        assert(s@.take(i + 1).last() == c);
        if is_ascii_whitespace(c) {
            if start < i {
                let t = s.substring_char(start, i);
                r.push(t);
            }
            start = i + 1;
            assert(s@.subrange(start as int, i + 1) =~= Seq::<char>::empty());
        } else {
            assert(s@.subrange(start as int, i + 1) =~= s@.subrange(start as int, i as int).push(c));
        }
        i = i + 1;
    }
    assert(s@.take(n as int) =~= s@);
    if start < n {
        let t = s.substring_char(start, n);
        r.push(t);
    }
    r
}

/// Character-wise equality of two string slices.
pub fn str_eq(a: &str, b: &str) -> (r: bool)
    ensures
        r == (a@ == b@),
{
    let n = a.unicode_len();
    let m = b.unicode_len();
    if n != m {
        return false;
    }
    let mut i: usize = 0;
    while i < n
        invariant
            n == a@.len(),
            m == b@.len(),
            n == m,
            i <= n,
            forall|j: int| 0 <= j < i ==> a@[j] == b@[j],
        decreases n - i,
    {
        if a.get_char(i) != b.get_char(i) {
            return false;
        }
        i = i + 1;
    }
    assert(a@ =~= b@);
    true
}

} // verus!
