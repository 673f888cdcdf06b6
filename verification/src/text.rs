use vstd::prelude::*;

verus! {

/// Relies on String::push: appends exactly one character at the end.
pub assume_specification[ String::push ](s: &mut String, c: char)
    ensures
        final(s)@ == old(s)@.push(c),
;

/// The characters with the Unicode `White_Space` property, the set that
/// `char::is_whitespace` recognises.
pub open spec fn is_white_char(c: char) -> bool {
    let u = c as u32;
    u == 0x20 || (0x09 <= u && u <= 0x0D) || u == 0x85 || u == 0xA0 || u == 0x1680 || (0x2000
        <= u && u <= 0x200A) || u == 0x2028 || u == 0x2029 || u == 0x202F || u == 0x205F || u
        == 0x3000
}

pub fn is_white(c: char) -> (r: bool)
    ensures
        r == is_white_char(c),
{
    let u = c as u32;
    u == 0x20 || (0x09 <= u && u <= 0x0D) || u == 0x85 || u == 0xA0 || u == 0x1680 || (0x2000
        <= u && u <= 0x200A) || u == 0x2028 || u == 0x2029 || u == 0x202F || u == 0x205F || u
        == 0x3000
}

pub open spec fn is_digit_char(c: char) -> bool {
    0x30 <= c as u32 && c as u32 <= 0x39
}

pub fn is_digit(c: char) -> (r: bool)
    ensures
        r == is_digit_char(c),
{
    let u = c as u32;
    0x30 <= u && u <= 0x39
}

pub open spec fn all_digits(s: Seq<char>) -> bool {
    forall|i: int| 0 <= i < s.len() ==> is_digit_char(s[i])
}

/// The base-ten value of a sequence of digit characters.
pub open spec fn digits_val(s: Seq<char>) -> int
    decreases s.len(),
{
    if s.len() == 0 {
        0
    } else {
        digits_val(s.drop_last()) * 10 + (s[s.len() - 1] as u32 - 0x30)
    }
}

pub fn to_chars(s: &str) -> (v: Vec<char>)
    ensures
        v@ == s@,
{
    let n = s.unicode_len();
    let mut v: Vec<char> = Vec::new();
    let mut i: usize = 0;
    while i < n
        invariant
            n == s@.len(),
            i <= n,
            v@ == s@.subrange(0, i as int),
        decreases n - i,
    {
        v.push(s.get_char(i));
        i = i + 1;
        proof {
            assert(v@ =~= s@.subrange(0, i as int));
        }
    }
    proof {
        assert(v@ =~= s@);
    }
    v
}

pub fn chars_to_string(v: &Vec<char>) -> (s: String)
    ensures
        s@ == v@,
{
    let mut s = String::new();
    let mut i: usize = 0;
    while i < v.len()
        invariant
            i <= v@.len(),
            s@ == v@.subrange(0, i as int),
        decreases v@.len() - i,
    {
        s.push(v[i]);
        i = i + 1;
        proof {
            assert(s@ =~= v@.subrange(0, i as int));
        }
    }
    proof {
        assert(s@ =~= v@);
    }
    s
}

pub open spec fn trim_start_spec(s: Seq<char>) -> Seq<char>
    decreases s.len(),
{
    if s.len() == 0 {
        s
    } else if is_white_char(s[0]) {
        trim_start_spec(s.drop_first())
    } else {
        s
    }
}

pub open spec fn trim_end_spec(s: Seq<char>) -> Seq<char>
    decreases s.len(),
{
    if s.len() == 0 {
        s
    } else if is_white_char(s[s.len() - 1]) {
        trim_end_spec(s.drop_last())
    } else {
        s
    }
}

/// What `str::trim` leaves: the input without leading and trailing whitespace.
pub open spec fn trim_spec(s: Seq<char>) -> Seq<char> {
    trim_end_spec(trim_start_spec(s))
}

proof fn lemma_trim_start_skip(s: Seq<char>, i: int)
    requires
        0 <= i <= s.len(),
        forall|k: int| 0 <= k < i ==> is_white_char(s[k]),
    ensures
        trim_start_spec(s) == trim_start_spec(s.subrange(i, s.len() as int)),
    decreases i,
{
    if i > 0 {
        assert(is_white_char(s[0]));
        assert(s.drop_first() =~= s.subrange(1, s.len() as int));
        assert(forall|k: int|
            0 <= k < i - 1 ==> is_white_char(#[trigger] s.subrange(1, s.len() as int)[k]));
        lemma_trim_start_skip(s.subrange(1, s.len() as int), i - 1);
        assert(s.subrange(1, s.len() as int).subrange(i - 1, s.len() - 1) =~= s.subrange(
            i,
            s.len() as int,
        ));
    } else {
        assert(s.subrange(0, s.len() as int) =~= s);
    }
}

proof fn lemma_trim_end_skip(s: Seq<char>, j: int)
    requires
        0 <= j <= s.len(),
        forall|k: int| j <= k < s.len() ==> is_white_char(s[k]),
    ensures
        trim_end_spec(s) == trim_end_spec(s.subrange(0, j)),
    decreases s.len() - j,
{
    if j < s.len() {
        assert(is_white_char(s[s.len() - 1]));
        assert(s.drop_last() =~= s.subrange(0, s.len() - 1));
        assert(forall|k: int|
            j <= k < s.len() - 1 ==> is_white_char(#[trigger] s.subrange(0, s.len() - 1)[k]));
        lemma_trim_end_skip(s.subrange(0, s.len() - 1), j);
        assert(s.subrange(0, s.len() - 1).subrange(0, j) =~= s.subrange(0, j));
    } else {
        assert(s.subrange(0, j) =~= s);
    }
}

pub fn trim_chars(v: &Vec<char>) -> (r: Vec<char>)
    ensures
        r@ == trim_spec(v@),
{
    let n = v.len();
    let mut i: usize = 0;
    while i < n && is_white(v[i])
        invariant
            n == v@.len(),
            i <= n,
            forall|k: int| 0 <= k < i ==> is_white_char(v@[k]),
        decreases n - i,
    {
        i = i + 1;
    }
    let mut j: usize = n;
    while j > i && is_white(v[j - 1])
        invariant
            n == v@.len(),
            i <= j <= n,
            forall|k: int| 0 <= k < i ==> is_white_char(v@[k]),
            forall|k: int| j <= k < n ==> is_white_char(v@[k]),
        decreases j,
    {
        j = j - 1;
    }
    let mut r: Vec<char> = Vec::new();
    let mut k: usize = i;
    while k < j
        invariant
            i <= k <= j <= n,
            n == v@.len(),
            r@ == v@.subrange(i as int, k as int),
        decreases j - k,
    {
        r.push(v[k]);
        k = k + 1;
        proof {
            assert(r@ =~= v@.subrange(i as int, k as int));
        }
    }
    proof {
        lemma_trim_start_skip(v@, i as int);
        let t = v@.subrange(i as int, n as int);
        if i < n {
            assert(!is_white_char(t[0]));
            assert(trim_start_spec(t) == t);
        }
        // j is within the trimmed-start part
        if i == j {
            // all of t is whitespace
            lemma_trim_end_skip(t, 0);
            assert(t.subrange(0, 0) =~= Seq::<char>::empty());
            assert(trim_end_spec(Seq::<char>::empty()) =~= Seq::<char>::empty());
            assert(r@ =~= Seq::<char>::empty());
        } else {
            assert(forall|k: int|
                j - i <= k < t.len() ==> is_white_char(#[trigger] t[k]) && t[k] == v@[k + i]);
            lemma_trim_end_skip(t, j - i);
            let u = t.subrange(0, j - i);
            assert(!is_white_char(u[u.len() - 1]));
            assert(trim_end_spec(u) == u);
            assert(r@ =~= u);
        }
    }
    r
}

/// What `str::split(sep)` yields: the pieces between occurrences of `sep`,
/// empty pieces included; splitting an empty text yields one empty piece.
pub open spec fn split_spec(s: Seq<char>, sep: char) -> Seq<Seq<char>>
    decreases s.len(),
{
    if s.len() == 0 {
        seq![Seq::<char>::empty()]
    } else if s[0] == sep {
        seq![Seq::<char>::empty()] + split_spec(s.drop_first(), sep)
    } else {
        let rest = split_spec(s.drop_first(), sep);
        seq![seq![s[0]] + rest[0]] + rest.drop_first()
    }
}

pub proof fn lemma_split_len(s: Seq<char>, sep: char)
    ensures
        split_spec(s, sep).len() >= 1,
    decreases s.len(),
{
    if s.len() > 0 {
        lemma_split_len(s.drop_first(), sep);
    }
}

pub fn split_char(v: &Vec<char>, sep: char) -> (r: Vec<Vec<char>>)
    ensures
        r@.map_values(|p: Vec<char>| p@) == split_spec(v@, sep),
{
    let ghost s = v@;
    let n = v.len();
    let mut pieces: Vec<Vec<char>> = Vec::new();
    let mut cur: Vec<char> = Vec::new();
    proof {
        lemma_split_len(s, sep);
        assert(s.subrange(0, n as int) =~= s);
        let whole = split_spec(s, sep);
        assert(cur@ + whole[0] =~= whole[0]);
        assert(pieces@.map_values(|p: Vec<char>| p@) + seq![whole[0]] + whole.drop_first()
            =~= whole);
    }
    let mut i: usize = 0;
    while i < n
        invariant
            n == s.len(),
            i <= n,
            v@ == s,
            split_spec(s, sep) == pieces@.map_values(|p: Vec<char>| p@) + seq![cur@ + split_spec(
                s.subrange(i as int, n as int),
                sep,
            )[0]] + split_spec(s.subrange(i as int, n as int), sep).drop_first(),
        decreases n - i,
    {
        proof {
            let rest = s.subrange(i as int, n as int);
            assert(rest.len() > 0);
            assert(rest[0] == s[i as int]);
            assert(rest.drop_first() =~= s.subrange(i as int + 1, n as int));
            lemma_split_len(s.subrange(i as int + 1, n as int), sep);
        }
        let ghost old_pieces = pieces@;
        let ghost old_cur = cur@;
        if v[i] == sep {
            pieces.push(cur);
            cur = Vec::new();
            proof {
                let tail = split_spec(s.subrange(i as int + 1, n as int), sep);
                assert(split_spec(s.subrange(i as int, n as int), sep) =~= seq![Seq::<
                    char,
                >::empty()] + tail);
                assert(pieces@.map_values(|p: Vec<char>| p@) =~= old_pieces.map_values(
                    |p: Vec<char>| p@,
                ).push(old_cur + Seq::<char>::empty()));
                assert(old_cur + Seq::<char>::empty() =~= old_cur);
                assert(split_spec(s, sep) =~= pieces@.map_values(|p: Vec<char>| p@) + seq![cur@
                    + tail[0]] + tail.drop_first());
            }
        } else {
            cur.push(v[i]);
            proof {
                let tail = split_spec(s.subrange(i as int + 1, n as int), sep);
                let rest = s.subrange(i as int, n as int);
                assert(split_spec(rest, sep) =~= seq![seq![rest[0]] + tail[0]]
                    + tail.drop_first());
                assert(cur@ + tail[0] =~= old_cur + (seq![rest[0]] + tail[0]));
                assert(split_spec(s, sep) =~= pieces@.map_values(|p: Vec<char>| p@) + seq![cur@
                    + tail[0]] + tail.drop_first());
            }
        }
        i = i + 1;
    }
    proof {
        let rest = s.subrange(n as int, n as int);
        assert(rest =~= Seq::<char>::empty());
        assert(split_spec(rest, sep) =~= seq![Seq::<char>::empty()]);
        assert(cur@ + Seq::<char>::empty() =~= cur@);
    }
    let ghost old_pieces = pieces@;
    let ghost old_cur = cur@;
    pieces.push(cur);
    proof {
        assert(pieces@.map_values(|p: Vec<char>| p@) =~= old_pieces.map_values(|p: Vec<char>| p@)
            + seq![old_cur]);
        assert(split_spec(s, sep) =~= pieces@.map_values(|p: Vec<char>| p@));
    }
    pieces
}

/// What `str::split_whitespace` yields: the maximal runs of non-whitespace
/// characters, in order; no piece is empty.
pub open spec fn split_ws_spec(s: Seq<char>) -> Seq<Seq<char>>
    decreases s.len(),
{
    if s.len() == 0 {
        Seq::empty()
    } else if is_white_char(s[0]) {
        split_ws_spec(s.drop_first())
    } else if s.len() > 1 && !is_white_char(s[1]) {
        let rest = split_ws_spec(s.drop_first());
        seq![seq![s[0]] + rest[0]] + rest.drop_first()
    } else {
        seq![seq![s[0]]] + split_ws_spec(s.drop_first())
    }
}

proof fn lemma_split_ws_head(s: Seq<char>)
    requires
        s.len() > 0,
        !is_white_char(s[0]),
    ensures
        split_ws_spec(s).len() >= 1,
    decreases s.len(),
{
}

pub fn split_ws(v: &Vec<char>) -> (r: Vec<Vec<char>>)
    ensures
        r@.map_values(|p: Vec<char>| p@) == split_ws_spec(v@),
{
    let ghost s = v@;
    let n = v.len();
    let mut pieces: Vec<Vec<char>> = Vec::new();
    let mut cur: Vec<char> = Vec::new();
    proof {
        assert(s.subrange(0, n as int) =~= s);
        assert(pieces@.map_values(|p: Vec<char>| p@) + split_ws_spec(s) =~= split_ws_spec(s));
    }
    let mut i: usize = 0;
    while i < n
        invariant
            n == s.len(),
            i <= n,
            v@ == s,
            cur@.len() == 0 ==> split_ws_spec(s) == pieces@.map_values(|p: Vec<char>| p@)
                + split_ws_spec(s.subrange(i as int, n as int)),
            cur@.len() > 0 ==> i >= 1 && !is_white_char(s[i as int - 1]) && (i < n ==> (
            if !is_white_char(s[i as int]) {
                split_ws_spec(s) == pieces@.map_values(|p: Vec<char>| p@) + seq![cur@
                    + split_ws_spec(s.subrange(i as int, n as int))[0]] + split_ws_spec(
                    s.subrange(i as int, n as int),
                ).drop_first()
            } else {
                split_ws_spec(s) == pieces@.map_values(|p: Vec<char>| p@) + seq![cur@]
                    + split_ws_spec(s.subrange(i as int, n as int))
            })) && (i == n ==> split_ws_spec(s) == pieces@.map_values(|p: Vec<char>| p@)
                + seq![cur@]),
        decreases n - i,
    {
        let ghost old_pieces = pieces@;
        let ghost old_cur = cur@;
        proof {
            let rest = s.subrange(i as int, n as int);
            assert(rest.len() > 0);
            assert(rest[0] == s[i as int]);
            assert(rest.drop_first() =~= s.subrange(i as int + 1, n as int));
        }
        if is_white(v[i]) {
            if cur.len() > 0 {
                pieces.push(cur);
                cur = Vec::new();
                proof {
                    assert(pieces@.map_values(|p: Vec<char>| p@) =~= old_pieces.map_values(
                        |p: Vec<char>| p@,
                    ) + seq![old_cur]);
                }
            }
            proof {
                let rest = s.subrange(i as int, n as int);
                assert(split_ws_spec(rest) == split_ws_spec(s.subrange(i as int + 1, n as int)));
            }
        } else {
            cur.push(v[i]);
            proof {
                let rest = s.subrange(i as int, n as int);
                let tail = split_ws_spec(s.subrange(i as int + 1, n as int));
                if i + 1 < n && !is_white_char(s[i as int + 1]) {
                    assert(rest.len() > 1 && !is_white_char(rest[1]));
                    lemma_split_ws_head(s.subrange(i as int + 1, n as int));
                    assert(split_ws_spec(rest) =~= seq![seq![rest[0]] + tail[0]]
                        + tail.drop_first());
                    assert(cur@ + tail[0] =~= old_cur + (seq![rest[0]] + tail[0]));
                } else {
                    assert(split_ws_spec(rest) =~= seq![seq![rest[0]]] + tail);
                    assert(cur@ =~= old_cur + seq![rest[0]]);
                    if i + 1 < n {
                        assert(is_white_char(s[i as int + 1]));
                    }
                }
            }
        }
        i = i + 1;
    }
    if cur.len() > 0 {
        let ghost old_pieces = pieces@;
        let ghost old_cur = cur@;
        pieces.push(cur);
        proof {
            assert(pieces@.map_values(|p: Vec<char>| p@) =~= old_pieces.map_values(
                |p: Vec<char>| p@,
            ) + seq![old_cur]);
        }
    } else {
        proof {
            assert(split_ws_spec(s.subrange(n as int, n as int)) =~= Seq::<Seq<char>>::empty());
            assert(pieces@.map_values(|p: Vec<char>| p@) + Seq::<Seq<char>>::empty()
                =~= pieces@.map_values(|p: Vec<char>| p@));
        }
    }
    pieces
}

/// Whether `pat` occurs as a contiguous part of `s`.
pub open spec fn contains_sub(s: Seq<char>, pat: Seq<char>) -> bool {
    exists|i: int|
        0 <= i && i + pat.len() <= s.len() && #[trigger] s.subrange(i, i + pat.len() as int)
            == pat
}

pub fn contains_chars(v: &Vec<char>, pat: &Vec<char>) -> (r: bool)
    ensures
        r == contains_sub(v@, pat@),
{
    let n = v.len();
    let m = pat.len();
    if m > n {
        return false;
    }
    let mut i: usize = 0;
    while i <= n - m
        invariant
            m <= n,
            n == v@.len(),
            m == pat@.len(),
            i <= n - m + 1,
            forall|k: int|
                0 <= k < i ==> #[trigger] v@.subrange(k, k + pat@.len() as int) != pat@,
        decreases n - m + 1 - i,
    {
        let mut j: usize = 0;
        let mut ok = true;
        while j < m
            invariant
                m <= n,
                n == v@.len(),
                m == pat@.len(),
                i + m <= n,
                j <= m,
                ok ==> (forall|k: int| 0 <= k < j ==> v@[i + k] == pat@[k]),
                !ok ==> (exists|k: int| 0 <= k < pat@.len() && v@[i + k] != pat@[k]),
            decreases m - j,
        {
            if v[i + j] != pat[j] {
                proof {
                    assert(v@[i as int + j as int] != pat@[j as int]);
                }
                ok = false;
                j = m;
            } else {
                j = j + 1;
            }
        }
        if ok {
            proof {
                assert(v@.subrange(i as int, i as int + pat@.len() as int) =~= pat@);
            }
            return true;
        }
        proof {
            let k = choose|k: int| 0 <= k < pat@.len() && v@[i + k] != pat@[k];
            assert(v@.subrange(i as int, i as int + pat@.len() as int)[k] == v@[i + k]);
            assert(v@.subrange(i as int, i as int + pat@.len() as int) != pat@);
        }
        i = i + 1;
    }
    proof {
        assert(forall|k: int|
            0 <= k && k + pat@.len() <= v@.len() ==> #[trigger] v@.subrange(
                k,
                k + pat@.len() as int,
            ) != pat@);
    }
    false
}

/// Names what `str::to_lowercase` returns; the mapping depends on the
/// characters alone.
pub uninterp spec fn lower_seq(s: Seq<char>) -> Seq<char>;

/// Relies on str::to_lowercase: the lowercase form of the text, a function of
/// its characters alone.
#[verifier::external_body]
pub fn to_lower(s: &str) -> (r: String)
    ensures
        r@ == lower_seq(s@),
{
    s.to_lowercase()
}

/// The decimal digit characters, written from an integer in [0, 10).
pub open spec fn digit_char(d: int) -> char {
    ((0x30 + d) as u8) as char
}

/// The decimal text of a non-negative integer, without padding.
pub open spec fn dec_spec(n: int) -> Seq<char>
    decreases n,
{
    if n < 0 {
        Seq::empty()
    } else if n < 10 {
        seq![digit_char(n)]
    } else {
        dec_spec(n / 10).push(digit_char(n % 10))
    }
}

fn push_dec(n: u64, out: &mut Vec<char>)
    ensures
        final(out)@ == old(out)@ + dec_spec(n as int),
    decreases n,
{
    if n < 10 {
        let d: u8 = 0x30 + (n as u8);
        out.push(d as char);
        proof {
            assert(out@ =~= old(out)@ + dec_spec(n as int));
        }
    } else {
        push_dec(n / 10, out);
        let d: u8 = 0x30 + ((n % 10) as u8);
        out.push(d as char);
        proof {
            assert(out@ =~= old(out)@ + dec_spec(n as int));
        }
    }
}

pub fn u64_to_dec(n: u64) -> (r: Vec<char>)
    ensures
        r@ == dec_spec(n as int),
{
    let mut out: Vec<char> = Vec::new();
    push_dec(n, &mut out);
    proof {
        assert(out@ =~= dec_spec(n as int));
    }
    out
}

/// The index of the first occurrence of `c` in `s`, or `s.len()` when absent.
pub open spec fn find_char(s: Seq<char>, c: char) -> int
    decreases s.len(),
{
    if s.len() == 0 {
        0
    } else if s[0] == c {
        0
    } else {
        1 + find_char(s.drop_first(), c)
    }
}

pub proof fn lemma_find_char(s: Seq<char>, c: char)
    ensures
        0 <= find_char(s, c) <= s.len(),
        find_char(s, c) < s.len() ==> s[find_char(s, c)] == c,
        forall|k: int| 0 <= k < find_char(s, c) ==> s[k] != c,
    decreases s.len(),
{
    if s.len() > 0 && s[0] != c {
        lemma_find_char(s.drop_first(), c);
        let f = find_char(s, c);
        assert forall|k: int| 0 <= k < f implies s[k] != c by {
            if k > 0 {
                assert(s.drop_first()[k - 1] != c);
            }
        }
    }
}

pub fn find_in(v: &Vec<char>, c: char) -> (r: usize)
    ensures
        r == find_char(v@, c),
{
    proof {
        lemma_find_char(v@, c);
    }
    let n = v.len();
    let mut i: usize = 0;
    while i < n
        invariant
            n == v@.len(),
            i <= n,
            forall|k: int| 0 <= k < i ==> v@[k] != c,
            0 <= find_char(v@, c) <= n,
            find_char(v@, c) < n ==> v@[find_char(v@, c)] == c,
            forall|k: int| 0 <= k < find_char(v@, c) ==> v@[k] != c,
        decreases n - i,
    {
        if v[i] == c {
            proof {
                let f = find_char(v@, c);
                if f < i {
                    assert(v@[f] != c);
                } else if f > i {
                    assert(v@[i as int] != c);
                }
            }
            return i;
        }
        i = i + 1;
    }
    proof {
        let f = find_char(v@, c);
        if f < n {
            assert(v@[f] != c);
        }
    }
    n
}

pub proof fn lemma_digits_val_nonneg(s: Seq<char>)
    requires
        all_digits(s),
    ensures
        digits_val(s) >= 0,
    decreases s.len(),
{
    if s.len() > 0 {
        assert(all_digits(s.drop_last()));
        lemma_digits_val_nonneg(s.drop_last());
        assert(is_digit_char(s[s.len() - 1]));
    }
}

pub proof fn lemma_digits_prefix_le(s: Seq<char>, i: int, j: int)
    requires
        all_digits(s),
        0 <= i <= j <= s.len(),
    ensures
        0 <= digits_val(s.subrange(0, i)) <= digits_val(s.subrange(0, j)),
    decreases j - i,
{
    assert(all_digits(s.subrange(0, i)));
    lemma_digits_val_nonneg(s.subrange(0, i));
    if i < j {
        lemma_digits_prefix_le(s, i + 1, j);
        let a = s.subrange(0, i);
        let b = s.subrange(0, i + 1);
        assert(b.drop_last() =~= a);
        assert(is_digit_char(b[b.len() - 1]));
        assert(digits_val(b) == digits_val(a) * 10 + (b[b.len() - 1] as u32 - 0x30));
        assert(digits_val(a) <= digits_val(a) * 10);
    }
}

/// Reads a base-ten number of at most `cap`; `None` when the text is empty,
/// holds a non-digit, or its value is above `cap`.
pub fn parse_bounded(v: &Vec<char>, cap: u64) -> (r: Option<u64>)
    requires
        cap <= 1_000_000_000_000,
    ensures
        (match r {
            Some(x) => v@.len() > 0 && all_digits(v@) && digits_val(v@) == x && x <= cap,
            None => v@.len() == 0 || !all_digits(v@) || digits_val(v@) > cap,
        }),
{
    let n = v.len();
    if n == 0 {
        return None;
    }
    let mut acc: u64 = 0;
    let mut i: usize = 0;
    while i < n
        invariant
            n == v@.len(),
            i <= n,
            cap <= 1_000_000_000_000,
            acc <= cap,
            forall|k: int| 0 <= k < i ==> is_digit_char(v@[k]),
            acc == digits_val(v@.subrange(0, i as int)),
        decreases n - i,
    {
        let c = v[i];
        if !is_digit(c) {
            return None;
        }
        let d: u64 = ((c as u32) - 0x30) as u64;
        let nv: u64 = acc * 10 + d;
        proof {
            let a = v@.subrange(0, i as int);
            let b = v@.subrange(0, i as int + 1);
            assert(b.drop_last() =~= a);
            assert(digits_val(b) == digits_val(a) * 10 + (b[b.len() - 1] as u32 - 0x30));
        }
        if nv > cap {
            proof {
                if all_digits(v@) {
                    lemma_digits_prefix_le(v@, i as int + 1, n as int);
                    assert(v@.subrange(0, n as int) =~= v@);
                }
            }
            return None;
        }
        acc = nv;
        i = i + 1;
    }
    proof {
        assert(v@.subrange(0, n as int) =~= v@);
    }
    Some(acc)
}

pub fn sub_chars(v: &Vec<char>, i: usize, j: usize) -> (r: Vec<char>)
    requires
        i <= j <= v@.len(),
    ensures
        r@ == v@.subrange(i as int, j as int),
{
    let mut r: Vec<char> = Vec::new();
    let mut k: usize = i;
    while k < j
        invariant
            i <= k <= j <= v@.len(),
            r@ == v@.subrange(i as int, k as int),
        decreases j - k,
    {
        r.push(v[k]);
        k = k + 1;
        proof {
            assert(r@ =~= v@.subrange(i as int, k as int));
        }
    }
    r
}

pub fn extend_chars(out: &mut Vec<char>, v: &Vec<char>)
    ensures
        final(out)@ == old(out)@ + v@,
{
    let mut k: usize = 0;
    while k < v.len()
        invariant
            k <= v@.len(),
            out@ == old(out)@ + v@.subrange(0, k as int),
        decreases v@.len() - k,
    {
        out.push(v[k]);
        k = k + 1;
        proof {
            assert(out@ =~= old(out)@ + v@.subrange(0, k as int));
        }
    }
    proof {
        assert(old(out)@ + v@.subrange(0, v@.len() as int) =~= old(out)@ + v@);
    }
}

/// `n` zero characters.
pub open spec fn zeros(n: int) -> Seq<char> {
    Seq::new(if n >= 0 { n as nat } else { 0 }, |i: int| '0')
}

/// `s` left-padded with zeros to width `w`; longer text stays as it is.
pub open spec fn pad_left(s: Seq<char>, w: int) -> Seq<char> {
    if s.len() >= w {
        s
    } else {
        zeros(w - s.len()) + s
    }
}

/// A number written as Rust's zero-padded width-`w` formatting writes it:
/// the minus sign, when present, counts toward the width.
pub open spec fn pad_num_spec(v: int, w: int) -> Seq<char> {
    if v >= 0 {
        pad_left(dec_spec(v), w)
    } else {
        seq!['-'] + pad_left(dec_spec(-v), w - 1)
    }
}

fn push_pad_mag(v: u64, w: usize, out: &mut Vec<char>)
    requires
        w <= 8,
    ensures
        final(out)@ == old(out)@ + pad_left(dec_spec(v as int), w as int),
{
    let d = u64_to_dec(v);
    let d0 = d.len();
    let mut k: usize = d0;
    while k < w
        invariant
            d0 == d@.len(),
            d0 <= k,
            k <= w || k == d0,
            w <= 8,
            out@ == old(out)@ + zeros(k - d0),
        decreases w - k,
    {
        out.push('0');
        k = k + 1;
        proof {
            assert(out@ =~= old(out)@ + zeros(k - d0));
        }
    }
    extend_chars(out, &d);
    proof {
        if d0 >= w {
            assert(zeros(0) =~= Seq::<char>::empty());
            assert(out@ =~= old(out)@ + pad_left(dec_spec(v as int), w as int));
        } else {
            assert(out@ =~= old(out)@ + (zeros(w - d0) + d@));
            assert(out@ =~= old(out)@ + pad_left(dec_spec(v as int), w as int));
        }
    }
}

pub fn push_pad_num(v: i64, w: usize, out: &mut Vec<char>)
    requires
        1 <= w <= 8,
        v > i64::MIN,
    ensures
        final(out)@ == old(out)@ + pad_num_spec(v as int, w as int),
{
    if v < 0 {
        out.push('-');
        push_pad_mag((-v) as u64, w - 1, out);
        proof {
            assert(out@ =~= old(out)@ + pad_num_spec(v as int, w as int));
        }
    } else {
        push_pad_mag(v as u64, w, out);
    }
}

pub proof fn lemma_dec_digits(n: int)
    requires
        n >= 0,
    ensures
        all_digits(dec_spec(n)),
        dec_spec(n).len() >= 1,
    decreases n,
{
    if n < 10 {
        assert(is_digit_char(digit_char(n))) by {
            assert((((0x30 + n) as u8) as char) as u32 == 0x30 + n);
        }
        assert(forall|i: int|
            0 <= i < dec_spec(n).len() ==> is_digit_char(#[trigger] dec_spec(n)[i]));
    } else {
        lemma_dec_digits(n / 10);
        assert(is_digit_char(digit_char(n % 10))) by {
            assert((((0x30 + n % 10) as u8) as char) as u32 == 0x30 + n % 10);
        }
        assert(dec_spec(n) == dec_spec(n / 10).push(digit_char(n % 10)));
        assert(forall|i: int|
            0 <= i < dec_spec(n).len() ==> is_digit_char(#[trigger] dec_spec(n)[i]));
    }
}

pub proof fn lemma_dec_val(n: int)
    requires
        n >= 0,
    ensures
        digits_val(dec_spec(n)) == n,
    decreases n,
{
    if n < 10 {
        let s = dec_spec(n);
        assert(s == seq![digit_char(n)]);
        assert(s.len() == 1);
        assert(s.last() == digit_char(n));
        assert(s.drop_last() =~= Seq::<char>::empty());
        assert(digits_val(s.drop_last()) == 0);
        assert(digit_char(n) as u32 == 0x30 + n) by {
            assert((((0x30 + n) as u8) as char) as u32 == 0x30 + n);
        }
        assert(digits_val(s) == digits_val(s.drop_last()) * 10 + (s.last() as u32 - 0x30));
    } else {
        lemma_dec_val(n / 10);
        let s = dec_spec(n);
        assert(s.drop_last() =~= dec_spec(n / 10));
        assert(digit_char(n % 10) as u32 == 0x30 + n % 10) by {
            assert((((0x30 + n % 10) as u8) as char) as u32 == 0x30 + n % 10);
        }
        vstd::arithmetic::div_mod::lemma_fundamental_div_mod(n, 10);
    }
}

pub proof fn lemma_zeros_val(k: int)
    ensures
        all_digits(zeros(k)),
        digits_val(zeros(k)) == 0,
    decreases k,
{
    assert(is_digit_char('0'));
    if k > 0 {
        lemma_zeros_val(k - 1);
        assert(zeros(k).drop_last() =~= zeros(k - 1));
        assert(zeros(k).last() == '0');
        assert('0' as u32 == 0x30);
    }
}

/// A run of leading digit zeros adds nothing to a number's value.
pub proof fn lemma_val_leading_zeros(p: Seq<char>, s: Seq<char>)
    requires
        all_digits(p),
        digits_val(p) == 0,
    ensures
        digits_val(p + s) == digits_val(s),
        all_digits(s) ==> all_digits(p + s),
    decreases s.len(),
{
    if s.len() == 0 {
        assert(p + s =~= p);
    } else {
        lemma_val_leading_zeros(p, s.drop_last());
        assert((p + s).drop_last() =~= p + s.drop_last());
        assert((p + s).last() == s.last());
    }
}

pub proof fn lemma_split_no_sep(s: Seq<char>, sep: char)
    requires
        forall|i: int| 0 <= i < s.len() ==> s[i] != sep,
    ensures
        split_spec(s, sep) == seq![s],
    decreases s.len(),
{
    if s.len() == 0 {
        assert(split_spec(s, sep) =~~= seq![s]);
    } else {
        lemma_split_no_sep(s.drop_first(), sep);
        let rest = split_spec(s.drop_first(), sep);
        assert(rest == seq![s.drop_first()]);
        assert(seq![s[0]] + rest[0] =~= s);
        assert(split_spec(s, sep) =~~= seq![s]);
    }
}

/// Splitting at a separator that the left part avoids peels the left part
/// off whole.
pub proof fn lemma_split_concat(a: Seq<char>, b: Seq<char>, sep: char)
    requires
        forall|i: int| 0 <= i < a.len() ==> a[i] != sep,
    ensures
        split_spec(a + seq![sep] + b, sep) == seq![a] + split_spec(b, sep),
    decreases a.len(),
{
    lemma_split_len(b, sep);
    if a.len() == 0 {
        let s = a + seq![sep] + b;
        assert(s[0] == sep);
        assert(s.drop_first() =~= b);
        assert(split_spec(s, sep) =~~= seq![a] + split_spec(b, sep));
    } else {
        let s = a + seq![sep] + b;
        assert(s[0] == a[0]);
        assert(s[0] != sep);
        assert(s.drop_first() =~= a.drop_first() + seq![sep] + b);
        lemma_split_concat(a.drop_first(), b, sep);
        let rest = split_spec(s.drop_first(), sep);
        assert(rest == seq![a.drop_first()] + split_spec(b, sep));
        assert(rest[0] == a.drop_first());
        assert(seq![s[0]] + rest[0] =~= a);
        assert(rest.drop_first() =~= split_spec(b, sep));
        assert(split_spec(s, sep) =~~= seq![a] + split_spec(b, sep));
    }
}

pub proof fn lemma_pad_digits(v: int, w: int)
    requires
        v >= 0,
    ensures
        all_digits(pad_num_spec(v, w)),
        pad_num_spec(v, w).len() >= 1,
        digits_val(pad_num_spec(v, w)) == v,
    decreases v,
{
    lemma_dec_digits(v);
    lemma_dec_val(v);
    let dv = dec_spec(v);
    if dv.len() >= w {
        assert(pad_num_spec(v, w) == dv);
    } else {
        lemma_zeros_val(w - dv.len());
        lemma_val_leading_zeros(zeros(w - dv.len()), dv);
        assert(pad_num_spec(v, w) == zeros(w - dv.len()) + dv);
    }
}

/// Digit characters are digits and nothing else: none of them is any of the
/// punctuation the timestamp format uses.
pub proof fn lemma_digits_avoid(s: Seq<char>, sep: char)
    requires
        all_digits(s),
        !(0x30 <= sep as u32 && sep as u32 <= 0x39),
    ensures
        forall|i: int| 0 <= i < s.len() ==> s[i] != sep,
{
    assert forall|i: int| 0 <= i < s.len() implies s[i] != sep by {
        assert(is_digit_char(s[i]));
    }
}

pub fn eq_chars(a: &Vec<char>, b: &Vec<char>) -> (r: bool)
    ensures
        r == (a@ == b@),
{
    if a.len() != b.len() {
        return false;
    }
    let mut i: usize = 0;
    while i < a.len()
        invariant
            a@.len() == b@.len(),
            i <= a@.len(),
            forall|k: int| 0 <= k < i ==> a@[k] == b@[k],
        decreases a@.len() - i,
    {
        if a[i] != b[i] {
            return false;
        }
        i = i + 1;
    }
    proof {
        assert(a@ =~= b@);
    }
    true
}

} // verus!
