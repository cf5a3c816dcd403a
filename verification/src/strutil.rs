//! Verified string utilities: lexicographic comparison, equality,
//! textual template substitution, and decimal rendering of integers.

use vstd::prelude::*;

verus! {

/// Strict lexicographic order on character sequences, by code point.
pub open spec fn lex_lt(a: Seq<char>, b: Seq<char>) -> bool
    decreases a.len(),
{
    if b.len() == 0 {
        false
    } else if a.len() == 0 {
        true
    } else if a[0] != b[0] {
        (a[0] as u32) < (b[0] as u32)
    } else {
        lex_lt(a.skip(1), b.skip(1))
    }
}

/// `lex_lt` is irreflexive.
pub proof fn lemma_lex_lt_irreflexive(a: Seq<char>)
    ensures
        !lex_lt(a, a),
    decreases a.len(),
{
    if a.len() > 0 {
        lemma_lex_lt_irreflexive(a.skip(1));
    }
}

/// Of two distinct sequences, one is lexicographically below the other.
pub proof fn lemma_lex_lt_total(a: Seq<char>, b: Seq<char>)
    ensures
        a == b || lex_lt(a, b) || lex_lt(b, a),
    decreases a.len(),
{
    if a.len() == 0 && b.len() == 0 {
        assert(a =~= b);
    } else if a.len() > 0 && b.len() > 0 && a[0] == b[0] {
        lemma_lex_lt_total(a.skip(1), b.skip(1));
        if a.skip(1) == b.skip(1) {
            assert(a.skip(1).len() == a.len() - 1);
            assert(b.skip(1).len() == b.len() - 1);
            assert forall|i: int| 0 <= i < a.len() implies a[i] == b[i] by {
                if i >= 1 {
                    assert(a.skip(1)[i - 1] == a[i]);
                    assert(b.skip(1)[i - 1] == b[i]);
                }
            }
            assert(a =~= b);
        }
    } else if a.len() == 0 {
        assert(lex_lt(a, b));
    } else if b.len() == 0 {
        assert(lex_lt(b, a));
    } else {
        assert(a[0] != b[0]);
        vstd::utf8::char_u32_cast(a[0], a[0] as u32);
        vstd::utf8::char_u32_cast(b[0], b[0] as u32);
        assert((a[0] as u32) != (b[0] as u32));
        if (a[0] as u32) < (b[0] as u32) {
            assert(lex_lt(a, b));
        } else {
            assert(lex_lt(b, a));
        }
    }
}

/// Exec lexicographic comparison, by character.
pub fn str_lex_lt(a: &str, b: &str) -> (r: bool)
    ensures
        r == lex_lt(a@, b@),
{
    let alen = a.unicode_len();
    let blen = b.unicode_len();
    let mut i: usize = 0;
    proof {
        assert(a@.skip(0) =~= a@);
        assert(b@.skip(0) =~= b@);
    }
    loop
        invariant
            i <= alen,
            i <= blen,
            alen == a@.len(),
            blen == b@.len(),
            lex_lt(a@, b@) == lex_lt(a@.skip(i as int), b@.skip(i as int)),
        decreases alen - i,
    {
        if i == blen {
            return false;
        }
        if i == alen {
            return true;
        }
        let ca = a.get_char(i);
        let cb = b.get_char(i);
        if ca != cb {
            return (ca as u32) < (cb as u32);
        }
        proof {
            assert(a@.skip(i as int).skip(1) =~= a@.skip(i + 1));
            assert(b@.skip(i as int).skip(1) =~= b@.skip(i + 1));
        }
        i = i + 1;
    }
}

/// Exec string equality over views.
pub fn str_eq(a: &str, b: &str) -> (r: bool)
    ensures
        r == (a@ == b@),
{
    let alen = a.unicode_len();
    let blen = b.unicode_len();
    if alen != blen {
        return false;
    }
    let mut i: usize = 0;
    while i < alen
        invariant
            i <= alen,
            alen == a@.len(),
            alen == b@.len(),
            forall|j: int| 0 <= j < i ==> a@[j] == b@[j],
        decreases alen - i,
    {
        if a.get_char(i) != b.get_char(i) {
            return false;
        }
        i = i + 1;
    }
    proof {
        assert(a@ =~= b@);
    }
    true
}

/// Textual substitution: every non-overlapping occurrence of `pat` in `s`,
/// scanning left to right, is replaced by `rep`.  An empty pattern leaves
/// `s` unchanged.
pub open spec fn replace_all(s: Seq<char>, pat: Seq<char>, rep: Seq<char>) -> Seq<char>
    decreases s.len(),
{
    if pat.len() == 0 || s.len() < pat.len() {
        s
    } else if s.subrange(0, pat.len() as int) == pat {
        rep + replace_all(s.skip(pat.len() as int), pat, rep)
    } else {
        seq![s[0]] + replace_all(s.skip(1), pat, rep)
    }
}

/// Whether `pat` occurs in `s` starting at character position `i`.
fn match_at(s: &str, i: usize, pat: &str) -> (r: bool)
    requires
        i + pat@.len() <= s@.len(),
        s@.len() <= usize::MAX,
    ensures
        r == (s@.subrange(i as int, i + pat@.len()) == pat@),
{
    let plen = pat.unicode_len();
    let mut j: usize = 0;
    while j < plen
        invariant
            j <= plen,
            plen == pat@.len(),
            i + plen <= s@.len(),
            s@.len() <= usize::MAX,
            forall|k: int| 0 <= k < j ==> s@[i + k] == pat@[k],
        decreases plen - j,
    {
        if s.get_char(i + j) != pat.get_char(j) {
            proof {
                assert(s@.subrange(i as int, i + pat@.len())[j as int] == s@[i + j]);
            }
            return false;
        }
        j = j + 1;
    }
    proof {
        assert(s@.subrange(i as int, i + pat@.len()) =~= pat@);
    }
    true
}

/// Exec counterpart of [`replace_all`].
pub fn str_replace_all(s: &str, pat: &str, rep: &str) -> (r: String)
    ensures
        r@ == replace_all(s@, pat@, rep@),
{
    let slen = s.unicode_len();
    let plen = pat.unicode_len();
    if plen == 0 || plen > slen {
        return s.to_owned();
    }
    let bound = slen - plen;
    let mut out = String::new();
    let mut i: usize = 0;
    proof {
        assert(s@.skip(0) =~= s@);
    }
    while i <= bound
        invariant
            i <= slen,
            bound == slen - plen,
            slen == s@.len(),
            plen == pat@.len(),
            0 < plen <= slen,
            replace_all(s@, pat@, rep@) == out@ + replace_all(s@.skip(i as int), pat@, rep@),
        decreases slen - i,
    {
        if match_at(s, i, pat) {
            proof {
                assert(s@.skip(i as int).subrange(0, plen as int) =~= s@.subrange(
                    i as int,
                    i + plen,
                ));
                assert(s@.skip(i as int).skip(plen as int) =~= s@.skip(i + plen));
            }
            out.append(rep);
            i = i + plen;
        } else {
            proof {
                assert(s@.skip(i as int).subrange(0, plen as int) =~= s@.subrange(
                    i as int,
                    i + plen,
                ));
                assert(s@.skip(i as int)[0] == s@[i as int]);
                assert(s@.skip(i as int).skip(1) =~= s@.skip(i + 1));
                assert(seq![s@[i as int]] =~= s@.subrange(i as int, i + 1));
            }
            let piece = s.substring_char(i, i + 1);
            out.append(piece);
            i = i + 1;
        }
    }
    proof {
        assert(replace_all(s@.skip(i as int), pat@, rep@) == s@.skip(i as int));
    }
    let tail = s.substring_char(i, slen);
    out.append(tail);
    proof {
        assert(s@.subrange(i as int, slen as int) =~= s@.skip(i as int));
    }
    out
}

/// The decimal digit character for `n < 10`.
pub open spec fn dec_digit(n: nat) -> char {
    if n == 0 {
        '0'
    } else if n == 1 {
        '1'
    } else if n == 2 {
        '2'
    } else if n == 3 {
        '3'
    } else if n == 4 {
        '4'
    } else if n == 5 {
        '5'
    } else if n == 6 {
        '6'
    } else if n == 7 {
        '7'
    } else if n == 8 {
        '8'
    } else {
        '9'
    }
}

/// Decimal rendering of a natural number, without leading zeros.
pub open spec fn dec_str(n: nat) -> Seq<char>
    decreases n,
{
    if n < 10 {
        seq![dec_digit(n)]
    } else {
        dec_str(n / 10).push(dec_digit(n % 10))
    }
}

/// The one-character string for digit `d`.
fn digit_str(d: usize) -> (r: &'static str)
    requires
        d < 10,
    ensures
        r@ == seq![dec_digit(d as nat)],
{
    proof {
        reveal_strlit("0");
        reveal_strlit("1");
        reveal_strlit("2");
        reveal_strlit("3");
        reveal_strlit("4");
        reveal_strlit("5");
        reveal_strlit("6");
        reveal_strlit("7");
        reveal_strlit("8");
        reveal_strlit("9");
    }
    let r = match d {
        0 => "0",
        1 => "1",
        2 => "2",
        3 => "3",
        4 => "4",
        5 => "5",
        6 => "6",
        7 => "7",
        8 => "8",
        _ => "9",
    };
    proof {
        assert(r@ =~= seq![dec_digit(d as nat)]);
    }
    r
}

/// Exec counterpart of [`dec_str`].
pub fn usize_to_string(n: usize) -> (r: String)
    ensures
        r@ == dec_str(n as nat),
    decreases n,
{
    let d = n % 10;
    let c = digit_str(d);
    if n < 10 {
        c.to_owned()
    } else {
        let mut r = usize_to_string(n / 10);
        r.append(c);
        proof {
            assert(dec_str((n / 10) as nat) + c@ =~= dec_str(n as nat));
        }
        r
    }
}


/// `lex_lt` implies inequality and excludes the reverse order.
pub proof fn lemma_lex_lt_asymmetric(a: Seq<char>, b: Seq<char>)
    requires
        lex_lt(a, b),
    ensures
        a != b,
        !lex_lt(b, a),
    decreases a.len(),
{
    lemma_lex_lt_irreflexive(a);
    if a.len() > 0 && b.len() > 0 && a[0] == b[0] {
        lemma_lex_lt_asymmetric(a.skip(1), b.skip(1));
        if a.skip(1) == b.skip(1) {
            lemma_lex_lt_irreflexive(a.skip(1));
        }
    } else if a.len() > 0 && b.len() > 0 {
        vstd::utf8::char_u32_cast(a[0], a[0] as u32);
        vstd::utf8::char_u32_cast(b[0], b[0] as u32);
    }
}

/// `lex_lt` is transitive.
pub proof fn lemma_lex_lt_transitive(a: Seq<char>, b: Seq<char>, c: Seq<char>)
    requires
        lex_lt(a, b),
        lex_lt(b, c),
    ensures
        lex_lt(a, c),
    decreases a.len(),
{
    if b.len() > 0 && c.len() > 0 && a.len() > 0 {
        if a[0] == b[0] && b[0] == c[0] {
            lemma_lex_lt_transitive(a.skip(1), b.skip(1), c.skip(1));
        }
    }
}

/// The view of a list of strings.
pub open spec fn strs_view(s: Seq<String>) -> Seq<Seq<char>>
    decreases s,
{
    if s.len() == 0 {
        Seq::empty()
    } else {
        strs_view(s.drop_last()).push(s.last()@)
    }
}

pub proof fn lemma_strs_view_props(s: Seq<String>)
    ensures
        strs_view(s).len() == s.len(),
        forall|i: int| 0 <= i < s.len() ==> strs_view(s)[i] == s[i]@,
    decreases s,
{
    if s.len() > 0 {
        lemma_strs_view_props(s.drop_last());
    }
}

/// Insert `x` into an ordered list of distinct strings, keeping order and
/// discarding `x` if it is already present.
pub open spec fn insert_uniq(s: Seq<Seq<char>>, x: Seq<char>) -> Seq<Seq<char>>
    decreases s.len(),
{
    if s.len() == 0 {
        seq![x]
    } else if s[0] == x {
        s
    } else if lex_lt(x, s[0]) {
        seq![x] + s
    } else {
        seq![s[0]] + insert_uniq(s.skip(1), x)
    }
}

/// The ordered, duplicate-free arrangement of a list of strings.
pub open spec fn sort_uniq(s: Seq<Seq<char>>) -> Seq<Seq<char>>
    decreases s.len(),
{
    if s.len() == 0 {
        s
    } else {
        insert_uniq(sort_uniq(s.drop_last()), s.last())
    }
}

/// Insert `x` into the ordered duplicate-free list `v`.
pub fn insert_uniq_exec(v: &mut Vec<String>, x: &str)
    ensures
        strs_view(final(v)@) == insert_uniq(strs_view(old(v)@), x@),
{
    let ghost sv = strs_view(v@);
    let n = v.len();
    let mut i: usize = 0;
    proof {
        lemma_strs_view_props(v@);
        assert(sv.take(0) =~= Seq::empty());
        assert(sv.skip(0) =~= sv);
    }
    while i < n && str_lex_lt(v[i].as_str(), x)
        invariant
            i <= n,
            n == v.len(),
            sv == strs_view(v@),
            sv.len() == n,
            forall|j: int| 0 <= j < n ==> sv[j] == v@[j]@,
            insert_uniq(sv, x@) == sv.take(i as int) + insert_uniq(sv.skip(i as int), x@),
        decreases n - i,
    {
        proof {
            lemma_lex_lt_asymmetric(sv[i as int], x@);
            assert(sv.skip(i as int)[0] == sv[i as int]);
            assert(sv.skip(i as int).skip(1) =~= sv.skip(i + 1));
            assert(sv.take(i + 1).drop_last() =~= sv.take(i as int));
            assert(insert_uniq(sv.skip(i as int), x@) == seq![sv[i as int]] + insert_uniq(
                sv.skip(i + 1),
                x@,
            ));
            assert(sv.take(i as int) + (seq![sv[i as int]] + insert_uniq(sv.skip(i + 1), x@))
                =~= sv.take(i + 1) + insert_uniq(sv.skip(i + 1), x@));
        }
        i = i + 1;
    }
    if i < n && str_eq(v[i].as_str(), x) {
        proof {
            assert(sv.skip(i as int)[0] == sv[i as int]);
            assert(insert_uniq(sv.skip(i as int), x@) == sv.skip(i as int));
            assert(sv.take(i as int) + sv.skip(i as int) =~= sv);
        }
        return ;
    }
    let ghost pre = v@;
    let xo = x.to_owned();
    v.insert(i, xo);
    proof {
        if i < n {
            assert(sv.skip(i as int)[0] == sv[i as int]);
            lemma_lex_lt_total(x@, sv[i as int]);
            assert(insert_uniq(sv.skip(i as int), x@) == seq![x@] + sv.skip(i as int));
        } else {
            assert(sv.skip(i as int).len() == 0);
            assert(insert_uniq(sv.skip(i as int), x@) =~= seq![x@]);
            assert(seq![x@] =~= seq![x@] + sv.skip(i as int));
        }
        assert(v@ =~= pre.take(i as int) + (seq![xo] + pre.skip(i as int)));
        lemma_strs_view_of_concat(pre.take(i as int), seq![xo] + pre.skip(i as int));
        lemma_strs_view_of_concat(seq![xo], pre.skip(i as int));
        lemma_strs_view_props(pre.take(i as int));
        lemma_strs_view_props(pre.skip(i as int));
        lemma_strs_view_props(seq![xo]);
        assert(strs_view(pre.take(i as int)) =~= sv.take(i as int));
        assert(strs_view(pre.skip(i as int)) =~= sv.skip(i as int));
        assert(strs_view(seq![xo]) =~= seq![x@]);
        assert(strs_view(v@) =~= sv.take(i as int) + (seq![x@] + sv.skip(i as int)));
    }
}

/// The string-list view distributes over concatenation.
pub proof fn lemma_strs_view_of_concat(a: Seq<String>, b: Seq<String>)
    ensures
        strs_view(a + b) == strs_view(a) + strs_view(b),
    decreases b.len(),
{
    if b.len() == 0 {
        assert(a + b =~= a);
        assert(strs_view(a) + strs_view(b) =~= strs_view(a));
    } else {
        lemma_strs_view_of_concat(a, b.drop_last());
        assert((a + b).drop_last() =~= a + b.drop_last());
        assert((a + b).last() == b.last());
        assert(strs_view(a) + strs_view(b) =~= (strs_view(a) + strs_view(b.drop_last())).push(
            b.last()@,
        ));
    }
}


/// Whether `c` is trailing whitespace that the artifact drops.
pub open spec fn is_ws(c: char) -> bool {
    c == ' ' || c == '\n' || c == '\t' || c == '\r'
}

/// `s` with all trailing whitespace removed.
pub open spec fn trim_end(s: Seq<char>) -> Seq<char>
    decreases s.len(),
{
    if s.len() == 0 {
        s
    } else if is_ws(s.last()) {
        trim_end(s.drop_last())
    } else {
        s
    }
}

/// Exec counterpart of [`trim_end`].
pub fn str_trim_end(s: &str) -> (r: String)
    ensures
        r@ == trim_end(s@),
{
    let len = s.unicode_len();
    let mut k: usize = len;
    proof {
        assert(s@.take(len as int) =~= s@);
    }
    loop
        invariant
            k <= len,
            len == s@.len(),
            trim_end(s@) == trim_end(s@.take(k as int)),
        ensures
            k <= len,
            trim_end(s@) == trim_end(s@.take(k as int)),
            k == 0 || !is_ws(s@[k - 1]),
        decreases k,
    {
        if k == 0 {
            break ;
        }
        let c = s.get_char(k - 1);
        if !(c == ' ' || c == '\n' || c == '\t' || c == '\r') {
            break ;
        }
        proof {
            assert(s@.take(k as int).last() == s@[k - 1]);
            assert(s@.take(k as int).drop_last() =~= s@.take(k - 1));
        }
        k = k - 1;
    }
    proof {
        if k > 0 {
            assert(s@.take(k as int).last() == s@[k - 1]);
            assert(trim_end(s@.take(k as int)) == s@.take(k as int));
        } else {
            assert(s@.take(0) =~= Seq::<char>::empty());
            assert(trim_end(s@.take(0)) =~= s@.take(0));
        }
    }
    let r = s.substring_char(0, k);
    proof {
        assert(s@.subrange(0, k as int) =~= s@.take(k as int));
    }
    r.to_owned()
}

} // verus!
