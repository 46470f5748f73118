//! Character-sequence toolkit: conversions between `String` and `Vec<char>`
//! and small scanning helpers shared by the document pipeline.
use vstd::prelude::*;

verus! {

broadcast use vstd::string::group_string_axioms;

/// Collects the characters of a string slice into a vector.
pub fn chars_vec(s: &str) -> (r: Vec<char>)
    ensures
        r@ == s@,
{
    let mut it = s.chars();
    let mut r: Vec<char> = Vec::new();
    loop
        invariant_except_break
            vstd::std_specs::iter::IteratorSpec::remaining(&it) =~= s@.skip(r@.len() as int),
            r@ =~= s@.take(r@.len() as int),
            r@.len() <= s@.len(),
        ensures
            r@ =~= s@,
        decreases s@.len() - r@.len(),
    {
        match it.next() {
            Some(c) => {
                r.push(c);
                proof {
                    assert(r@ =~= s@.take(r@.len() as int));
                    assert(vstd::std_specs::iter::IteratorSpec::remaining(&it) =~= s@.skip(
                        r@.len() as int,
                    ));
                }
            },
            None => {
                proof {
                    assert(r@ =~= s@);
                }
                break ;
            },
        }
    }
    r
}

/// Relies on `String`'s `FromIterator<char>`: collecting the characters of a
/// string yields a string with exactly those characters.
#[verifier::external_body]
pub fn string_from_chars(v: &Vec<char>) -> (r: String)
    ensures
        r@ == v@,
{
    v.iter().collect()
}

/// Copies `v[a..b]` into a fresh vector.
pub fn subvec(v: &Vec<char>, a: usize, b: usize) -> (r: Vec<char>)
    requires
        a <= b <= v@.len(),
    ensures
        r@ == v@.subrange(a as int, b as int),
{
    let mut r: Vec<char> = Vec::new();
    let mut i: usize = a;
    while i < b
        invariant
            a <= i <= b <= v@.len(),
            r@ =~= v@.subrange(a as int, i as int),
        decreases b - i,
    {
        r.push(v[i]);
        i = i + 1;
        proof {
            assert(r@ =~= v@.subrange(a as int, i as int));
        }
    }
    proof {
        assert(r@ =~= v@.subrange(a as int, b as int));
    }
    r
}

/// The views of a sequence of character vectors.
pub open spec fn seqs_view(vs: Seq<Vec<char>>) -> Seq<Seq<char>> {
    vs.map_values(|v: Vec<char>| v@)
}

/// The views of a sequence of strings.
pub open spec fn strings_view(ss: Seq<String>) -> Seq<Seq<char>> {
    ss.map_values(|s: String| s@)
}

/// The character for a decimal digit.
pub open spec fn digit_char(d: nat) -> char {
    if d == 0 {
        '0'
    } else if d == 1 {
        '1'
    } else if d == 2 {
        '2'
    } else if d == 3 {
        '3'
    } else if d == 4 {
        '4'
    } else if d == 5 {
        '5'
    } else if d == 6 {
        '6'
    } else if d == 7 {
        '7'
    } else if d == 8 {
        '8'
    } else {
        '9'
    }
}

/// The decimal digits of `n`, most significant first.
pub open spec fn spec_dec(n: nat) -> Seq<char>
    decreases n,
{
    if n < 10 {
        seq![digit_char(n)]
    } else {
        spec_dec(n / 10).push(digit_char(n % 10))
    }
}

/// Every character of a decimal rendering is a digit.
pub proof fn lemma_spec_dec_digits(n: nat)
    ensures
        forall|i: int|
            0 <= i < spec_dec(n).len() ==> '0' <= #[trigger] spec_dec(n)[i] && spec_dec(n)[i]
                <= '9',
    decreases n,
{
    if n >= 10 {
        lemma_spec_dec_digits(n / 10);
        assert forall|i: int|
            0 <= i < spec_dec(n).len() implies '0' <= #[trigger] spec_dec(n)[i] && spec_dec(n)[i]
            <= '9' by {
            if i < spec_dec(n / 10).len() {
                assert(spec_dec(n)[i] == spec_dec(n / 10)[i]);
            }
        }
    }
}

fn digit_exec(d: usize) -> (r: char)
    requires
        d < 10,
    ensures
        r == digit_char(d as nat),
{
    match d {
        0 => '0',
        1 => '1',
        2 => '2',
        3 => '3',
        4 => '4',
        5 => '5',
        6 => '6',
        7 => '7',
        8 => '8',
        _ => '9',
    }
}

/// Renders `n` in decimal.
pub fn dec_chars(n: usize) -> (r: Vec<char>)
    ensures
        r@ == spec_dec(n as nat),
    decreases n,
{
    if n < 10 {
        let mut v: Vec<char> = Vec::new();
        v.push(digit_exec(n));
        proof {
            assert(v@ =~= spec_dec(n as nat));
        }
        v
    } else {
        let mut v = dec_chars(n / 10);
        v.push(digit_exec(n % 10));
        proof {
            assert(v@ =~= spec_dec(n as nat));
        }
        v
    }
}

/// The last `w` decimal digits of `n`, zero padded to exactly `w` characters.
pub open spec fn spec_dec_pad(n: nat, w: nat) -> Seq<char>
    decreases w,
{
    if w == 0 {
        Seq::empty()
    } else {
        spec_dec_pad(n / 10, (w - 1) as nat).push(digit_char(n % 10))
    }
}

/// Renders `n` zero padded to exactly `w` digits.
pub fn dec_pad(n: usize, w: usize) -> (r: Vec<char>)
    ensures
        r@ == spec_dec_pad(n as nat, w as nat),
    decreases w,
{
    if w == 0 {
        let v: Vec<char> = Vec::new();
        proof {
            assert(v@ =~= spec_dec_pad(n as nat, 0));
        }
        v
    } else {
        let mut v = dec_pad(n / 10, w - 1);
        v.push(digit_exec(n % 10));
        proof {
            assert(v@ =~= spec_dec_pad(n as nat, w as nat));
        }
        v
    }
}

/// Index of the first occurrence of `c` in `s`, if any.
pub open spec fn first_index_of(s: Seq<char>, c: char) -> Option<int>
    decreases s.len(),
{
    if s.len() == 0 {
        None
    } else if s[0] == c {
        Some(0int)
    } else {
        match first_index_of(s.drop_first(), c) {
            Some(i) => Some(i + 1),
            None => None,
        }
    }
}

/// `first_index_of` finds the least occurrence.
pub proof fn lemma_first_index_of(s: Seq<char>, c: char)
    ensures
        match first_index_of(s, c) {
            Some(i) => 0 <= i < s.len() && s[i] == c && forall|j: int| 0 <= j < i ==> s[j] != c,
            None => forall|j: int| 0 <= j < s.len() ==> s[j] != c,
        },
    decreases s.len(),
{
    if s.len() > 0 && s[0] != c {
        let t = s.drop_first();
        lemma_first_index_of(t, c);
        match first_index_of(t, c) {
            Some(i) => {
                assert(s[i + 1] == t[i]);
                assert forall|j: int| 0 <= j < i + 1 implies s[j] != c by {
                    if j > 0 {
                        assert(t[j - 1] == s[j]);
                    }
                }
            },
            None => {
                assert forall|j: int| 0 <= j < s.len() implies s[j] != c by {
                    if j > 0 {
                        assert(t[j - 1] == s[j]);
                    }
                }
            },
        }
    }
}

/// An occurrence with no earlier occurrence pins `first_index_of` down.
pub proof fn lemma_first_index_of_is(s: Seq<char>, c: char, k: int)
    requires
        0 <= k < s.len(),
        s[k] == c,
        forall|j: int| 0 <= j < k ==> s[j] != c,
    ensures
        first_index_of(s, c) == Some(k),
{
    lemma_first_index_of(s, c);
    match first_index_of(s, c) {
        Some(i) => {
            if i < k {
                assert(s[i] != c);
            }
            if k < i {
                assert(s[k] != c);
            }
        },
        None => {
            assert(s[k] != c);
        },
    }
}

/// A line with one trailing carriage return removed.
pub open spec fn strip_cr(l: Seq<char>) -> Seq<char> {
    if l.len() > 0 && l.last() == '\r' {
        l.drop_last()
    } else {
        l
    }
}

/// The lines of `s`: split at `\n`, a `\r` before the break removed, and no
/// empty final line after a trailing break.
pub open spec fn spec_lines(s: Seq<char>) -> Seq<Seq<char>>
    decreases s.len(),
    via spec_lines_decreases
{
    if s.len() == 0 {
        Seq::empty()
    } else {
        match first_index_of(s, '\n') {
            Some(i) => seq![strip_cr(s.take(i))] + spec_lines(s.skip(i + 1)),
            None => seq![s],
        }
    }
}

#[via_fn]
proof fn spec_lines_decreases(s: Seq<char>) {
    lemma_first_index_of(s, '\n');
}

/// Splits `v` into its lines.
pub fn lines_vec(v: &Vec<char>) -> (r: Vec<Vec<char>>)
    ensures
        seqs_view(r@) == spec_lines(v@),
{
    let n = v.len();
    let mut out: Vec<Vec<char>> = Vec::new();
    let mut p: usize = 0;
    proof {
        assert(v@.skip(0) =~= v@);
        assert(seqs_view(out@) =~= Seq::<Seq<char>>::empty());
    }
    while p < n
        invariant
            0 <= p <= n == v@.len(),
            spec_lines(v@) =~= seqs_view(out@) + spec_lines(v@.skip(p as int)),
        decreases n - p,
    {
        match find_char_from(v, p, '\n') {
            Some(k) => {
                proof {
                    assert(k < n);
                }
                let seg = if k > p && v[k - 1] == '\r' {
                    subvec(v, p, k - 1)
                } else {
                    subvec(v, p, k)
                };
                out.push(seg);
                proof {
                    let s = v@.skip(p as int);
                    lemma_first_index_of(s, '\n');
                    assert(s.take(k - p) =~= v@.subrange(p as int, k as int));
                    if k > p && v@[k - 1] == '\r' {
                        assert(s.take(k - p).last() == v@[k - 1]);
                        assert(strip_cr(s.take(k - p)) =~= v@.subrange(p as int, k - 1));
                    } else {
                        if k > p {
                            assert(s.take(k - p).last() == v@[k - 1]);
                        }
                        assert(strip_cr(s.take(k - p)) =~= v@.subrange(p as int, k as int));
                    }
                    assert(s.skip(k - p + 1) =~= v@.skip(k + 1));
                    assert(seqs_view(out@) =~= seqs_view(out@.drop_last()) + seq![seg@]);
                }
                p = k + 1;
            },
            None => {
                let seg = subvec(v, p, n);
                out.push(seg);
                proof {
                    let s = v@.skip(p as int);
                    assert(s =~= v@.subrange(p as int, n as int));
                    assert(s.len() > 0);
                    assert(seqs_view(out@) =~= seqs_view(out@.drop_last()) + seq![s]);
                    assert(v@.skip(n as int) =~= Seq::<char>::empty());
                }
                p = n;
            },
        }
    }
    proof {
        assert(v@.skip(n as int) =~= Seq::<char>::empty());
        assert(seqs_view(out@) =~= spec_lines(v@));
    }
    out
}

/// Whitespace characters recognized by the pipeline.
pub open spec fn is_ws(c: char) -> bool {
    c == ' ' || c == '\t' || c == '\n' || c == '\r' || c == '\x0B' || c == '\x0C'
}

/// Whether `c` is whitespace.
pub fn is_ws_char(c: char) -> (r: bool)
    ensures
        r == is_ws(c),
{
    c == ' ' || c == '\t' || c == '\n' || c == '\r' || c == '\x0B' || c == '\x0C'
}

/// Length of the longest whitespace prefix of `s`.
pub open spec fn ws_prefix_len(s: Seq<char>) -> int
    decreases s.len(),
{
    if s.len() == 0 || !is_ws(s[0]) {
        0
    } else {
        1 + ws_prefix_len(s.drop_first())
    }
}

/// Length of the longest whitespace suffix of `s`.
pub open spec fn ws_suffix_len(s: Seq<char>) -> int
    decreases s.len(),
{
    if s.len() == 0 || !is_ws(s.last()) {
        0
    } else {
        1 + ws_suffix_len(s.drop_last())
    }
}

pub proof fn lemma_ws_prefix(s: Seq<char>)
    ensures
        0 <= ws_prefix_len(s) <= s.len(),
        forall|j: int| 0 <= j < ws_prefix_len(s) ==> is_ws(s[j]),
        ws_prefix_len(s) < s.len() ==> !is_ws(s[ws_prefix_len(s)]),
    decreases s.len(),
{
    if s.len() > 0 && is_ws(s[0]) {
        let t = s.drop_first();
        lemma_ws_prefix(t);
        assert forall|j: int| 0 <= j < ws_prefix_len(s) implies is_ws(s[j]) by {
            if j > 0 {
                assert(s[j] == t[j - 1]);
            }
        }
        if ws_prefix_len(s) < s.len() {
            assert(s[ws_prefix_len(s)] == t[ws_prefix_len(t)]);
        }
    }
}

pub proof fn lemma_ws_prefix_is(s: Seq<char>, k: int)
    requires
        0 <= k <= s.len(),
        forall|j: int| 0 <= j < k ==> is_ws(s[j]),
        k < s.len() ==> !is_ws(s[k]),
    ensures
        ws_prefix_len(s) == k,
{
    lemma_ws_prefix(s);
    let p = ws_prefix_len(s);
    if p < k {
        assert(is_ws(s[p]));
    }
    if k < p {
        assert(is_ws(s[k]));
    }
}

pub proof fn lemma_ws_suffix(s: Seq<char>)
    ensures
        0 <= ws_suffix_len(s) <= s.len(),
        forall|j: int| s.len() - ws_suffix_len(s) <= j < s.len() ==> is_ws(s[j]),
        ws_suffix_len(s) < s.len() ==> !is_ws(s[s.len() - ws_suffix_len(s) - 1]),
    decreases s.len(),
{
    if s.len() > 0 && is_ws(s.last()) {
        let t = s.drop_last();
        lemma_ws_suffix(t);
        assert forall|j: int| s.len() - ws_suffix_len(s) <= j < s.len() implies is_ws(s[j]) by {
            if j < s.len() - 1 {
                assert(s[j] == t[j]);
            }
        }
    }
}

pub proof fn lemma_ws_suffix_is(s: Seq<char>, k: int)
    requires
        0 <= k <= s.len(),
        forall|j: int| s.len() - k <= j < s.len() ==> is_ws(s[j]),
        k < s.len() ==> !is_ws(s[s.len() - k - 1]),
    ensures
        ws_suffix_len(s) == k,
{
    lemma_ws_suffix(s);
    let q = ws_suffix_len(s);
    if q < k {
        assert(is_ws(s[s.len() - q - 1]));
    }
    if k < q {
        assert(is_ws(s[s.len() - k - 1]));
    }
}

/// `s` with leading and trailing whitespace removed.
pub open spec fn spec_trim(s: Seq<char>) -> Seq<char> {
    if ws_prefix_len(s) == s.len() {
        Seq::empty()
    } else {
        s.subrange(ws_prefix_len(s), s.len() - ws_suffix_len(s))
    }
}

/// Trims leading and trailing whitespace.
pub fn trim_chars(v: &Vec<char>) -> (r: Vec<char>)
    ensures
        r@ == spec_trim(v@),
{
    let n = v.len();
    let mut a: usize = 0;
    while a < n && is_ws_char(v[a])
        invariant
            0 <= a <= n == v@.len(),
            forall|j: int| 0 <= j < a ==> is_ws(v@[j]),
        decreases n - a,
    {
        a = a + 1;
    }
    proof {
        lemma_ws_prefix_is(v@, a as int);
    }
    if a == n {
        let r: Vec<char> = Vec::new();
        proof {
            assert(r@ =~= spec_trim(v@));
        }
        return r;
    }
    let mut q: usize = 0;
    while q < n && is_ws_char(v[n - q - 1])
        invariant
            0 <= q <= n == v@.len(),
            forall|j: int| n - q <= j < n ==> is_ws(v@[j]),
        decreases n - q,
    {
        q = q + 1;
    }
    proof {
        lemma_ws_suffix_is(v@, q as int);
        lemma_ws_prefix(v@);
        lemma_ws_suffix(v@);
        if n - q <= a {
            assert(is_ws(v@[a as int]));
        }
    }
    subvec(v, a, n - q)
}

/// The segments of `s` between occurrences of the separator `c`.
pub open spec fn spec_split_char(s: Seq<char>, c: char) -> Seq<Seq<char>>
    decreases s.len(),
    via spec_split_char_decreases
{
    match first_index_of(s, c) {
        None => seq![s],
        Some(i) => seq![s.take(i)] + spec_split_char(s.skip(i + 1), c),
    }
}

#[via_fn]
proof fn spec_split_char_decreases(s: Seq<char>, c: char) {
    lemma_first_index_of(s, c);
}

/// Splits `v` on the separator `c`.
pub fn split_char(v: &Vec<char>, c: char) -> (r: Vec<Vec<char>>)
    ensures
        seqs_view(r@) == spec_split_char(v@, c),
{
    let mut out: Vec<Vec<char>> = Vec::new();
    let mut p: usize = 0;
    let n = v.len();
    proof {
        assert(v@.skip(0) =~= v@);
        assert(seqs_view(out@) =~= Seq::<Seq<char>>::empty());
    }
    loop
        invariant_except_break
            p <= v@.len(),
            n == v@.len(),
            spec_split_char(v@, c) =~= seqs_view(out@) + spec_split_char(v@.skip(p as int), c),
        ensures
            seqs_view(out@) =~= spec_split_char(v@, c),
        decreases v@.len() - p,
    {
        match find_char_from(v, p, c) {
            Some(k) => {
                proof {
                    assert(k < n);
                }
                let seg = subvec(v, p, k);
                out.push(seg);
                proof {
                    let s = v@.skip(p as int);
                    lemma_first_index_of(s, c);
                    assert(s.take(k - p) =~= v@.subrange(p as int, k as int));
                    assert(s.skip(k - p + 1) =~= v@.skip(k + 1));
                    assert(seqs_view(out@) =~= seqs_view(out@.drop_last()) + seq![
                        v@.subrange(p as int, k as int),
                    ]);
                }
                p = k + 1;
            },
            None => {
                let seg = subvec(v, p, v.len());
                out.push(seg);
                proof {
                    let s = v@.skip(p as int);
                    assert(s =~= v@.subrange(p as int, v@.len() as int));
                    assert(seqs_view(out@) =~= seqs_view(out@.drop_last()) + seq![s]);
                    assert(seqs_view(out@) =~= spec_split_char(v@, c));
                }
                break ;
            },
        }
    }
    out
}

/// Finds the first occurrence of `c` in `v` at or after `from`.
pub fn find_char_from(v: &Vec<char>, from: usize, c: char) -> (r: Option<usize>)
    requires
        from <= v@.len(),
    ensures
        match r {
            Some(k) => from <= k < v@.len() && first_index_of(v@.skip(from as int), c) == Some(
                k - from,
            ),
            None => first_index_of(v@.skip(from as int), c) is None,
        },
{
    let mut j: usize = from;
    while j < v.len()
        invariant
            from <= j <= v@.len(),
            forall|j2: int| from <= j2 < j ==> v@[j2] != c,
        decreases v@.len() - j,
    {
        if v[j] == c {
            proof {
                let s = v@.skip(from as int);
                assert forall|x: int| 0 <= x < j - from implies s[x] != c by {
                    assert(s[x] == v@[from + x]);
                }
                lemma_first_index_of_is(s, c, j - from);
            }
            return Some(j);
        }
        j = j + 1;
    }
    proof {
        let s = v@.skip(from as int);
        lemma_first_index_of(s, c);
        if first_index_of(s, c) is Some {
            let i = first_index_of(s, c)->Some_0;
            assert(s[i] == v@[from + i]);
        }
    }
    None
}

} // verus!
