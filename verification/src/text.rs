//! Character-sequence utilities: conversions between `String` and
//! `Vec<char>`, whitespace handling, splitting, trimming, and ASCII case
//! mapping, each specified over `Seq<char>`.

use vstd::prelude::*;
use vstd::string::StrSliceExecFns;

verus! {

/// The whitespace characters that delimit words in corpus text.
pub open spec fn is_space(c: char) -> bool {
    c == ' ' || c == '\t' || c == '\n' || c == '\r'
}

pub fn is_space_char(c: char) -> (r: bool)
    ensures
        r == is_space(c),
{
    c == ' ' || c == '\t' || c == '\n' || c == '\r'
}

pub open spec fn is_digit(c: char) -> bool {
    '0' <= c && c <= '9'
}

pub fn is_digit_char(c: char) -> (r: bool)
    ensures
        r == is_digit(c),
{
    '0' <= c && c <= '9'
}

/// Collects the characters of a string slice into a vector.
pub fn chars_of(s: &str) -> (v: Vec<char>)
    ensures
        v@ == s@,
{
    let n = s.unicode_len();
    let mut v: Vec<char> = Vec::new();
    let mut i: usize = 0;
    while i < n
        invariant
            i <= n,
            n == s@.len(),
            v@ == s@.take(i as int),
        decreases n - i,
    {
        v.push(s.get_char(i));
        proof {
            assert(s@.take(i + 1 as int) =~= s@.take(i as int).push(s@[i as int]));
        }
        i = i + 1;
    }
    proof {
        assert(v@ =~= s@);
    }
    v
}

/// Relies on `String::push`: appends exactly one character at the end.
#[verifier::external_body]
pub fn push_char(s: &mut String, c: char)
    ensures
        final(s)@ == old(s)@.push(c),
{
    s.push(c);
}

/// Builds a `String` out of a character vector.
pub fn string_of(v: &Vec<char>) -> (s: String)
    ensures
        s@ == v@,
{
    let mut s = String::new();
    let mut i: usize = 0;
    while i < v.len()
        invariant
            i <= v.len(),
            s@ == v@.take(i as int),
        decreases v.len() - i,
    {
        push_char(&mut s, v[i]);
        proof {
            assert(v@.take(i + 1 as int) =~= v@.take(i as int).push(v@[i as int]));
        }
        i = i + 1;
    }
    proof {
        assert(s@ =~= v@);
    }
    s
}

/// Character-wise equality of two vectors.
pub fn chars_eq(a: &Vec<char>, b: &Vec<char>) -> (r: bool)
    ensures
        r == (a@ == b@),
{
    if a.len() != b.len() {
        proof {
            assert(a@ != b@);
        }
        return false;
    }
    let mut i: usize = 0;
    while i < a.len()
        invariant
            i <= a.len(),
            a@.len() == b@.len(),
            forall|k: int| 0 <= k < i ==> a@[k] == b@[k],
        decreases a.len() - i,
    {
        if a[i] != b[i] {
            proof {
                assert(a@[i as int] != b@[i as int]);
            }
            return false;
        }
        i = i + 1;
    }
    proof {
        assert(a@ =~= b@);
    }
    true
}

/// Character-wise equality against a string slice.
pub fn chars_eq_str(a: &Vec<char>, s: &str) -> (r: bool)
    ensures
        r == (a@ == s@),
{
    let b = chars_of(s);
    chars_eq(a, &b)
}

/// Whether `p` is a prefix of `a`.
pub fn chars_start_with(a: &Vec<char>, p: &Vec<char>) -> (r: bool)
    ensures
        r == (a@.len() >= p@.len() && a@.take(p@.len() as int) == p@),
{
    if a.len() < p.len() {
        return false;
    }
    let mut i: usize = 0;
    while i < p.len()
        invariant
            i <= p.len(),
            p.len() <= a.len(),
            forall|k: int| 0 <= k < i ==> a@[k] == p@[k],
        decreases p.len() - i,
    {
        if a[i] != p[i] {
            proof {
                assert(a@.take(p@.len() as int)[i as int] != p@[i as int]);
            }
            return false;
        }
        i = i + 1;
    }
    proof {
        assert(a@.take(p@.len() as int) =~= p@);
    }
    true
}

/// Copies the subrange `[from, to)` of a character vector.
pub fn sub_chars(v: &Vec<char>, from: usize, to: usize) -> (r: Vec<char>)
    requires
        from <= to <= v@.len(),
    ensures
        r@ == v@.subrange(from as int, to as int),
{
    let mut r: Vec<char> = Vec::new();
    let mut i: usize = from;
    while i < to
        invariant
            from <= i <= to <= v@.len(),
            r@ == v@.subrange(from as int, i as int),
        decreases to - i,
    {
        r.push(v[i]);
        proof {
            assert(v@.subrange(from as int, i + 1 as int) =~= v@.subrange(
                from as int,
                i as int,
            ).push(v@[i as int]));
        }
        i = i + 1;
    }
    r
}

/// Concatenation of two character vectors.
pub fn concat_chars(a: &Vec<char>, b: &Vec<char>) -> (r: Vec<char>)
    ensures
        r@ == a@ + b@,
{
    let mut r: Vec<char> = Vec::new();
    let mut i: usize = 0;
    while i < a.len()
        invariant
            i <= a.len(),
            r@ == a@.take(i as int),
        decreases a.len() - i,
    {
        r.push(a[i]);
        proof {
            assert(a@.take(i + 1 as int) =~= a@.take(i as int).push(a@[i as int]));
        }
        i = i + 1;
    }
    proof {
        assert(r@ =~= a@);
    }
    let mut j: usize = 0;
    while j < b.len()
        invariant
            j <= b.len(),
            r@ == a@ + b@.take(j as int),
        decreases b.len() - j,
    {
        r.push(b[j]);
        proof {
            assert(a@ + b@.take(j + 1 as int) =~= (a@ + b@.take(j as int)).push(b@[j as int]));
        }
        j = j + 1;
    }
    proof {
        assert(r@ =~= a@ + b@);
    }
    r
}

/// Length of the longest whitespace prefix of `s`.
pub open spec fn space_run(s: Seq<char>) -> nat
    decreases s.len(),
{
    if s.len() > 0 && is_space(s[0]) {
        1 + space_run(s.skip(1))
    } else {
        0
    }
}

/// Length of the longest non-whitespace prefix of `s`.
pub open spec fn word_run(s: Seq<char>) -> nat
    decreases s.len(),
{
    if s.len() > 0 && !is_space(s[0]) {
        1 + word_run(s.skip(1))
    } else {
        0
    }
}

pub proof fn lemma_space_run_le(s: Seq<char>)
    ensures
        space_run(s) <= s.len(),
    decreases s.len(),
{
    if s.len() > 0 && is_space(s[0]) {
        lemma_space_run_le(s.skip(1));
    }
}

pub proof fn lemma_word_run_le(s: Seq<char>)
    ensures
        word_run(s) <= s.len(),
    decreases s.len(),
{
    if s.len() > 0 && !is_space(s[0]) {
        lemma_word_run_le(s.skip(1));
    }
}

/// Every character inside the word run is not whitespace, and the run stops
/// at the end of the sequence or at a whitespace character.
pub proof fn lemma_word_run_shape(s: Seq<char>)
    ensures
        forall|k: int| 0 <= k < word_run(s) ==> !is_space(s[k]),
        word_run(s) < s.len() ==> is_space(s[word_run(s) as int]),
        word_run(s) <= s.len(),
    decreases s.len(),
{
    lemma_word_run_le(s);
    if s.len() > 0 && !is_space(s[0]) {
        lemma_word_run_shape(s.skip(1));
        assert forall|k: int| 0 <= k < word_run(s) implies !is_space(s[k]) by {
            if k > 0 {
                assert(s[k] == s.skip(1)[k - 1]);
            }
        }
        if word_run(s) < s.len() {
            assert(s[word_run(s) as int] == s.skip(1)[word_run(s.skip(1)) as int]);
        }
    }
}

/// The whitespace-delimited words of `s`, in order, with empty runs of
/// whitespace collapsed; the standard reading of "split on whitespace".
pub open spec fn ws_words(s: Seq<char>) -> Seq<Seq<char>>
    decreases s.len(),
    via ws_words_decreases
{
    if s.len() == 0 {
        Seq::empty()
    } else if is_space(s[0]) {
        ws_words(s.skip(1))
    } else {
        seq![s.take(word_run(s) as int)] + ws_words(s.skip(word_run(s) as int))
    }
}

#[via_fn]
proof fn ws_words_decreases(s: Seq<char>) {
    if s.len() > 0 && !is_space(s[0]) {
        lemma_word_run_le(s);
    }
}

/// Splits a character vector into its whitespace-delimited words.
pub fn split_words(v: &Vec<char>) -> (r: Vec<Vec<char>>)
    ensures
        r@.len() == ws_words(v@).len(),
        forall|k: int| 0 <= k < r@.len() ==> #[trigger] r@[k]@ == ws_words(v@)[k],
{
    let n = v.len();
    let mut r: Vec<Vec<char>> = Vec::new();
    let mut i: usize = 0;
    proof {
        assert(v@.skip(0) =~= v@);
        assert(Seq::new(r@.len(), |k: int| r@[k]@) + ws_words(v@) =~= ws_words(v@));
    }
    while i < n
        invariant
            i <= n,
            n == v@.len(),
            ws_words(v@) == Seq::new(r@.len(), |k: int| r@[k]@) + ws_words(v@.skip(i as int)),
        decreases n - i,
    {
        if is_space_char(v[i]) {
            proof {
                assert(v@.skip(i as int).skip(1) =~= v@.skip(i + 1 as int));
            }
            i = i + 1;
        } else {
            let start = i;
            let mut j = i + 1;
            proof {
                assert(v@.skip(i as int)[0] == v@[i as int]);
                assert(word_run(v@.skip(i as int)) == 1 + word_run(v@.skip(i as int).skip(1)));
                assert(v@.skip(i as int).skip(1) =~= v@.skip(i + 1 as int));
            }
            while j < n && !is_space_char(v[j])
                invariant
                    start < j <= n,
                    n == v@.len(),
                    word_run(v@.skip(start as int)) == j - start + word_run(v@.skip(j as int)),
                decreases n - j,
            {
                proof {
                    assert(v@.skip(j as int)[0] == v@[j as int]);
                    assert(word_run(v@.skip(j as int)) == 1 + word_run(v@.skip(j as int).skip(1)));
                    assert(v@.skip(j as int).skip(1) =~= v@.skip(j + 1 as int));
                }
                j = j + 1;
            }
            proof {
                if j < n {
                    assert(v@.skip(j as int)[0] == v@[j as int]);
                    assert(word_run(v@.skip(j as int)) == 0);
                } else {
                    assert(v@.skip(j as int).len() == 0);
                    assert(word_run(v@.skip(j as int)) == 0);
                }
                assert(word_run(v@.skip(start as int)) == j - start);
            }
            let word = sub_chars(v, start, j);
            proof {
                let t = v@.skip(start as int);
                assert(t.take(word_run(t) as int) =~= v@.subrange(start as int, j as int));
                assert(t.skip(word_run(t) as int) =~= v@.skip(j as int));
                assert(ws_words(t) == seq![word@] + ws_words(v@.skip(j as int)));
            }
            r.push(word);
            proof {
                let m = (r@.len() - 1) as nat;
                assert(Seq::new(r@.len(), |k: int| r@[k]@) =~= Seq::new(
                    m,
                    |k: int| r@[k]@,
                ).push(v@.subrange(start as int, j as int)));
                assert(Seq::new(m, |k: int| r@[k]@) + (seq![
                    v@.subrange(start as int, j as int),
                ] + ws_words(v@.skip(j as int))) =~= Seq::new(r@.len(), |k: int| r@[k]@)
                    + ws_words(v@.skip(j as int)));
            }
            i = j;
        }
    }
    proof {
        assert(v@.skip(n as int).len() == 0);
        assert(ws_words(v@) =~= Seq::new(r@.len(), |k: int| r@[k]@));
    }
    r
}

/// Length of the longest prefix of `s` free of the separator `sep`.
pub open spec fn nosep_run(s: Seq<char>, sep: char) -> nat
    decreases s.len(),
{
    if s.len() > 0 && s[0] != sep {
        1 + nosep_run(s.skip(1), sep)
    } else {
        0
    }
}

pub proof fn lemma_nosep_run_le(s: Seq<char>, sep: char)
    ensures
        nosep_run(s, sep) <= s.len(),
    decreases s.len(),
{
    if s.len() > 0 && s[0] != sep {
        lemma_nosep_run_le(s.skip(1), sep);
    }
}

/// The pieces of `s` cut at every occurrence of `sep`; empty pieces are
/// kept, and a sequence without the separator yields itself as one piece.
pub open spec fn sep_split(s: Seq<char>, sep: char) -> Seq<Seq<char>>
    decreases s.len(),
    via sep_split_decreases
{
    let k = nosep_run(s, sep) as int;
    if k == s.len() {
        seq![s]
    } else {
        seq![s.take(k)] + sep_split(s.skip(k + 1), sep)
    }
}

#[via_fn]
proof fn sep_split_decreases(s: Seq<char>, sep: char) {
    lemma_nosep_run_le(s, sep);
}

/// Splits a character vector at every occurrence of `sep`.
pub fn split_on(v: &Vec<char>, sep: char) -> (r: Vec<Vec<char>>)
    ensures
        r@.len() == sep_split(v@, sep).len(),
        forall|k: int| 0 <= k < r@.len() ==> #[trigger] r@[k]@ == sep_split(v@, sep)[k],
        r@.len() >= 1,
{
    let n = v.len();
    let mut r: Vec<Vec<char>> = Vec::new();
    let mut i: usize = 0;
    proof {
        assert(v@.skip(0) =~= v@);
        assert(Seq::new(r@.len(), |k: int| r@[k]@) + sep_split(v@, sep) =~= sep_split(v@, sep));
    }
    loop
        invariant
            i <= n,
            n == v@.len(),
            sep_split(v@, sep) == Seq::new(r@.len(), |k: int| r@[k]@) + sep_split(
                v@.skip(i as int),
                sep,
            ),
        decreases n - i,
    {
        // Find the end of the current separator-free piece.
        let start = i;
        let mut j = i;
        proof {
            let t = v@.skip(start as int);
            assert(nosep_run(t, sep) == j - start + nosep_run(v@.skip(j as int), sep));
        }
        while j < n && v[j] != sep
            invariant
                start <= j <= n,
                n == v@.len(),
                nosep_run(v@.skip(start as int), sep) == j - start + nosep_run(
                    v@.skip(j as int),
                    sep,
                ),
            decreases n - j,
        {
            proof {
                assert(v@.skip(j as int)[0] == v@[j as int]);
                assert(nosep_run(v@.skip(j as int), sep) == 1 + nosep_run(
                    v@.skip(j as int).skip(1),
                    sep,
                ));
                assert(v@.skip(j as int).skip(1) =~= v@.skip(j + 1 as int));
            }
            j = j + 1;
        }
        proof {
            if j < n {
                assert(v@.skip(j as int)[0] == v@[j as int]);
            } else {
                assert(v@.skip(j as int).len() == 0);
            }
            assert(nosep_run(v@.skip(j as int), sep) == 0);
            assert(nosep_run(v@.skip(start as int), sep) == j - start);
        }
        let piece = sub_chars(v, start, j);
        proof {
            let t = v@.skip(start as int);
            assert(t.take(nosep_run(t, sep) as int) =~= v@.subrange(start as int, j as int));
        }
        r.push(piece);
        if j < n {
            proof {
                let t = v@.skip(start as int);
                assert(t.skip(nosep_run(t, sep) as int + 1) =~= v@.skip(j + 1 as int));
                assert(sep_split(t, sep) == seq![piece@] + sep_split(v@.skip(j + 1 as int), sep));
                let m = (r@.len() - 1) as nat;
                assert(Seq::new(r@.len(), |k: int| r@[k]@) =~= Seq::new(m, |k: int| r@[k]@).push(
                    piece@,
                ));
                assert(Seq::new(m, |k: int| r@[k]@) + (seq![piece@] + sep_split(
                    v@.skip(j + 1 as int),
                    sep,
                )) =~= Seq::new(r@.len(), |k: int| r@[k]@) + sep_split(v@.skip(j + 1 as int), sep));
            }
            i = j + 1;
        } else {
            proof {
                let t = v@.skip(start as int);
                assert(t =~= v@.subrange(start as int, j as int));
                assert(sep_split(t, sep) == seq![piece@]);
                let m = (r@.len() - 1) as nat;
                assert(Seq::new(r@.len(), |k: int| r@[k]@) =~= Seq::new(m, |k: int| r@[k]@).push(
                    piece@,
                ));
                assert(sep_split(v@, sep) =~= Seq::new(r@.len(), |k: int| r@[k]@));
            }
            return r;
        }
    }
}

/// `s` without leading and trailing whitespace: the subrange from the end
/// of the leading space run to the start of the trailing one.
pub open spec fn trimmed(s: Seq<char>) -> Seq<char> {
    if space_run(s) == s.len() {
        Seq::empty()
    } else {
        s.subrange(space_run(s) as int, s.len() - end_space_run(s))
    }
}

/// Length of the longest whitespace suffix of `s`.
pub open spec fn end_space_run(s: Seq<char>) -> nat
    decreases s.len(),
{
    if s.len() > 0 && is_space(s[s.len() - 1]) {
        1 + end_space_run(s.take(s.len() - 1))
    } else {
        0
    }
}

proof fn lemma_end_space_run_le(s: Seq<char>)
    ensures
        end_space_run(s) <= s.len(),
    decreases s.len(),
{
    if s.len() > 0 && is_space(s[s.len() - 1]) {
        lemma_end_space_run_le(s.take(s.len() - 1));
    }
}

proof fn lemma_end_space_run_shape(s: Seq<char>)
    ensures
        end_space_run(s) <= s.len(),
        forall|k: int| s.len() - end_space_run(s) <= k < s.len() ==> is_space(s[k]),
        end_space_run(s) < s.len() ==> !is_space(s[s.len() - end_space_run(s) - 1]),
    decreases s.len(),
{
    lemma_end_space_run_le(s);
    if s.len() > 0 && is_space(s[s.len() - 1]) {
        lemma_end_space_run_shape(s.take(s.len() - 1));
        assert forall|k: int| s.len() - end_space_run(s) <= k < s.len() implies is_space(s[k]) by {
            if k < s.len() - 1 {
                assert(s[k] == s.take(s.len() - 1)[k]);
            }
        }
        if end_space_run(s) < s.len() {
            assert(s[s.len() - end_space_run(s) - 1] == s.take(s.len() - 1)[s.len() - 1
                - end_space_run(s.take(s.len() - 1)) - 1]);
        }
    }
}

proof fn lemma_space_run_shape(s: Seq<char>)
    ensures
        space_run(s) <= s.len(),
        forall|k: int| 0 <= k < space_run(s) ==> is_space(s[k]),
        space_run(s) < s.len() ==> !is_space(s[space_run(s) as int]),
    decreases s.len(),
{
    lemma_space_run_le(s);
    if s.len() > 0 && is_space(s[0]) {
        lemma_space_run_shape(s.skip(1));
        assert forall|k: int| 0 <= k < space_run(s) implies is_space(s[k]) by {
            if k > 0 {
                assert(s[k] == s.skip(1)[k - 1]);
            }
        }
        if space_run(s) < s.len() {
            assert(s[space_run(s) as int] == s.skip(1)[space_run(s.skip(1)) as int]);
        }
    }
}

/// Removes leading and trailing whitespace.
pub fn trim_chars(v: &Vec<char>) -> (r: Vec<char>)
    ensures
        r@ == trimmed(v@),
{
    let n = v.len();
    let mut a: usize = 0;
    proof {
        assert(space_run(v@.skip(0)) == space_run(v@)) by {
            assert(v@.skip(0) =~= v@);
        }
    }
    while a < n && is_space_char(v[a])
        invariant
            a <= n,
            n == v@.len(),
            space_run(v@) == a + space_run(v@.skip(a as int)),
        decreases n - a,
    {
        proof {
            assert(v@.skip(a as int)[0] == v@[a as int]);
            assert(space_run(v@.skip(a as int)) == 1 + space_run(v@.skip(a as int).skip(1)));
            assert(v@.skip(a as int).skip(1) =~= v@.skip(a + 1 as int));
        }
        a = a + 1;
    }
    proof {
        if a < n {
            assert(v@.skip(a as int)[0] == v@[a as int]);
        } else {
            assert(v@.skip(a as int).len() == 0);
        }
        assert(space_run(v@.skip(a as int)) == 0);
        assert(space_run(v@) == a);
    }
    if a == n {
        let r: Vec<char> = Vec::new();
        return r;
    }
    let mut b: usize = n;
    proof {
        assert(end_space_run(v@.take(n as int)) == end_space_run(v@)) by {
            assert(v@.take(n as int) =~= v@);
        }
    }
    while b > a && is_space_char(v[b - 1])
        invariant
            a <= b <= n,
            n == v@.len(),
            a == space_run(v@),
            a < n,
            end_space_run(v@) == (n - b) + end_space_run(v@.take(b as int)),
        decreases b,
    {
        proof {
            let t = v@.take(b as int);
            assert(t[t.len() - 1] == v@[b - 1]);
            assert(end_space_run(t) == 1 + end_space_run(t.take(t.len() - 1)));
            assert(t.take(t.len() - 1) =~= v@.take(b - 1));
        }
        b = b - 1;
    }
    proof {
        let t = v@.take(b as int);
        if b > a {
            assert(t[t.len() - 1] == v@[b - 1]);
            assert(end_space_run(t) == 0);
        } else {
            assert(b == a);
            lemma_space_run_shape(v@);
            // v[a] is not a space, and b == a, so the take ends right before a
            // non-space character were it nonempty from a; the suffix run is 0.
            if t.len() > 0 {
                if is_space(t[t.len() - 1]) {
                    // t ends at index a - 1; every index below space_run is space,
                    // so this is consistent; but then end_space_run counts into
                    // the leading spaces, contradiction with b > a impossible:
                    // here b == a, so t = leading spaces only.
                    assert(forall|k: int| 0 <= k < a ==> is_space(v@[k]));
                    lemma_end_space_run_all(t);
                } else {
                    assert(end_space_run(t) == 0);
                }
            } else {
                assert(end_space_run(t) == 0);
            }
        }
        assert(end_space_run(v@) == n - b || b == a);
    }
    proof {
        // The backward scan cannot reach `a`: v[a] is not whitespace.
        if b == a {
            lemma_space_run_shape(v@);
            assert(!is_space(v@[a as int]));
            lemma_end_space_run_shape(v@);
            assert(end_space_run(v@) >= n - a);
            assert(is_space(v@[a as int]));
            assert(false);
        }
        assert(end_space_run(v@) == n - b);
    }
    sub_chars(v, a, b)
}

/// In a sequence of whitespace only, the suffix run covers everything.
proof fn lemma_end_space_run_all(s: Seq<char>)
    requires
        forall|k: int| 0 <= k < s.len() ==> is_space(s[k]),
    ensures
        end_space_run(s) == s.len(),
    decreases s.len(),
{
    if s.len() > 0 {
        lemma_end_space_run_all(s.take(s.len() - 1));
    }
}

/// ASCII lower-casing of one character; characters outside `A..Z` are kept.
pub open spec fn lower_char(c: char) -> char {
    if 'A' <= c && c <= 'Z' {
        (((c as u8) + 32) as char)
    } else {
        c
    }
}

/// ASCII upper-casing of one character; characters outside `a..z` are kept.
pub open spec fn upper_char(c: char) -> char {
    if 'a' <= c && c <= 'z' {
        (((c as u8) - 32) as char)
    } else {
        c
    }
}

pub fn lower_char_exec(c: char) -> (r: char)
    ensures
        r == lower_char(c),
{
    if 'A' <= c && c <= 'Z' {
        ((c as u8) + 32) as char
    } else {
        c
    }
}

pub fn upper_char_exec(c: char) -> (r: char)
    ensures
        r == upper_char(c),
{
    if 'a' <= c && c <= 'z' {
        ((c as u8) - 32) as char
    } else {
        c
    }
}

/// ASCII lower-casing of a whole sequence.
pub open spec fn lower_seq(s: Seq<char>) -> Seq<char> {
    s.map_values(|c: char| lower_char(c))
}

/// ASCII upper-casing of a whole sequence.
pub open spec fn upper_seq(s: Seq<char>) -> Seq<char> {
    s.map_values(|c: char| upper_char(c))
}

pub fn lower_chars(v: &Vec<char>) -> (r: Vec<char>)
    ensures
        r@ == lower_seq(v@),
{
    let mut r: Vec<char> = Vec::new();
    let mut i: usize = 0;
    while i < v.len()
        invariant
            i <= v.len(),
            r@.len() == i,
            forall|k: int| 0 <= k < i ==> r@[k] == lower_char(v@[k]),
        decreases v.len() - i,
    {
        r.push(lower_char_exec(v[i]));
        i = i + 1;
    }
    proof {
        assert(r@ =~= lower_seq(v@));
    }
    r
}

pub fn upper_chars(v: &Vec<char>) -> (r: Vec<char>)
    ensures
        r@ == upper_seq(v@),
{
    let mut r: Vec<char> = Vec::new();
    let mut i: usize = 0;
    while i < v.len()
        invariant
            i <= v.len(),
            r@.len() == i,
            forall|k: int| 0 <= k < i ==> r@[k] == upper_char(v@[k]),
        decreases v.len() - i,
    {
        r.push(upper_char_exec(v[i]));
        i = i + 1;
    }
    proof {
        assert(r@ =~= upper_seq(v@));
    }
    r
}

/// Equality of two sequences up to ASCII case.
pub open spec fn eq_ignore_case(a: Seq<char>, b: Seq<char>) -> bool {
    lower_seq(a) == lower_seq(b)
}

pub fn chars_eq_ignore_case(a: &Vec<char>, b: &Vec<char>) -> (r: bool)
    ensures
        r == eq_ignore_case(a@, b@),
{
    let la = lower_chars(a);
    let lb = lower_chars(b);
    chars_eq(&la, &lb)
}

pub fn chars_eq_ignore_case_str(a: &Vec<char>, s: &str) -> (r: bool)
    ensures
        r == eq_ignore_case(a@, s@),
{
    let b = chars_of(s);
    chars_eq_ignore_case(a, &b)
}

/// Whether `needle` occurs anywhere in `hay` as a contiguous subsequence.
pub open spec fn contains_seq(hay: Seq<char>, needle: Seq<char>) -> bool {
    exists|k: int|
        0 <= k <= hay.len() - needle.len() && #[trigger] hay.subrange(k, k + needle.len())
            == needle
}

pub fn chars_contain(hay: &Vec<char>, needle: &Vec<char>) -> (r: bool)
    ensures
        r == contains_seq(hay@, needle@),
{
    let m = needle.len();
    let n = hay.len();
    if m > n {
        proof {
            assert(!contains_seq(hay@, needle@));
        }
        return false;
    }
    let mut k: usize = 0;
    while k <= n - m
        invariant
            m == needle@.len(),
            n == hay@.len(),
            m <= n,
            k <= n - m + 1,
            forall|k0: int|
                0 <= k0 < k ==> #[trigger] hay@.subrange(k0, k0 + needle@.len()) != needle@,
        decreases n + 1 - m - k,
    {
        let mut i: usize = 0;
        let mut all = true;
        while i < m
            invariant
                m == needle@.len(),
                n == hay@.len(),
                m <= n,
                k + m <= n,
                i <= m,
                all == (forall|t: int| 0 <= t < i ==> hay@[k + t] == needle@[t]),
                !all ==> i == m,
            decreases m - i,
        {
            proof {
                assert(k + i < hay@.len());
            }
            if hay[k + i] != needle[i] {
                proof {
                    assert(hay@[k + i as int] != needle@[i as int]);
                }
                all = false;
                i = m;
            } else {
                proof {
                    assert(forall|t: int| 0 <= t < i ==> hay@[k + t] == needle@[t]);
                    assert(hay@[k + i as int] == needle@[i as int]);
                }
                i = i + 1;
            }
        }
        if all {
            proof {
                assert(hay@.subrange(k as int, k as int + needle@.len()) =~= needle@);
            }
            return true;
        }
        proof {
            let t0 = choose|t: int| 0 <= t < m && hay@[k + t] != needle@[t];
            assert(hay@.subrange(k as int, k as int + needle@.len())[t0] == hay@[k + t0]);
            assert(hay@.subrange(k as int, k as int + needle@.len()) != needle@);
        }
        k = k + 1;
    }
    proof {
        assert(!contains_seq(hay@, needle@));
    }
    false
}

/// Strict lexicographic order on character sequences by code point; the
/// order a byte-wise comparison of their encodings induces.
pub open spec fn lex_lt(a: Seq<char>, b: Seq<char>) -> bool
    decreases a.len(),
{
    if b.len() == 0 {
        false
    } else if a.len() == 0 {
        true
    } else if a[0] != b[0] {
        a[0] < b[0]
    } else {
        lex_lt(a.skip(1), b.skip(1))
    }
}

/// The order is transitive.
pub proof fn lemma_lex_trans(a: Seq<char>, b: Seq<char>, c: Seq<char>)
    requires
        lex_lt(a, b),
        lex_lt(b, c),
    ensures
        lex_lt(a, c),
    decreases a.len(),
{
    if a.len() > 0 && b.len() > 0 && c.len() > 0 {
        if a[0] == b[0] && b[0] == c[0] {
            lemma_lex_trans(a.skip(1), b.skip(1), c.skip(1));
        }
    }
}

/// Two sequences neither of which precedes the other are equal.
pub proof fn lemma_lex_total(a: Seq<char>, b: Seq<char>)
    requires
        !lex_lt(a, b),
        !lex_lt(b, a),
    ensures
        a == b,
    decreases a.len(),
{
    if a.len() == 0 && b.len() == 0 {
        assert(a =~= b);
    } else if a.len() > 0 && b.len() > 0 {
        assert(a[0] == b[0]);
        lemma_lex_total(a.skip(1), b.skip(1));
        assert(a =~= seq![a[0]] + a.skip(1));
        assert(b =~= seq![b[0]] + b.skip(1));
    }
}

/// Compares two character vectors lexicographically.
pub fn lex_lt_chars(a: &Vec<char>, b: &Vec<char>) -> (r: bool)
    ensures
        r == lex_lt(a@, b@),
{
    let an = a.len();
    let bn = b.len();
    let mut i: usize = 0;
    proof {
        assert(a@.skip(0) =~= a@);
        assert(b@.skip(0) =~= b@);
    }
    while i < an && i < bn
        invariant
            i <= an,
            i <= bn,
            an == a@.len(),
            bn == b@.len(),
            lex_lt(a@, b@) == lex_lt(a@.skip(i as int), b@.skip(i as int)),
            forall|k: int| 0 <= k < i ==> a@[k] == b@[k],
        decreases an - i,
    {
        proof {
            assert(a@.skip(i as int)[0] == a@[i as int]);
            assert(b@.skip(i as int)[0] == b@[i as int]);
            assert(a@.skip(i as int).skip(1) =~= a@.skip(i + 1 as int));
            assert(b@.skip(i as int).skip(1) =~= b@.skip(i + 1 as int));
        }
        if a[i] != b[i] {
            return a[i] < b[i];
        }
        i = i + 1;
    }
    proof {
        if i >= an {
            assert(a@.skip(i as int).len() == 0);
        }
        if i >= bn {
            assert(b@.skip(i as int).len() == 0);
        }
    }
    i >= an && i < bn
}

/// Whether any character of `s` is whitespace.
pub open spec fn has_space(s: Seq<char>) -> bool {
    exists|k: int| 0 <= k < s.len() && is_space(#[trigger] s[k])
}

pub fn chars_have_space(v: &Vec<char>) -> (r: bool)
    ensures
        r == has_space(v@),
{
    let mut i: usize = 0;
    while i < v.len()
        invariant
            i <= v.len(),
            forall|k: int| 0 <= k < i ==> !is_space(#[trigger] v@[k]),
        decreases v.len() - i,
    {
        if is_space_char(v[i]) {
            return true;
        }
        i = i + 1;
    }
    false
}

} // verus!
