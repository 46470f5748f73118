//! The document splitter: a document is optional leading whitespace, a `---`
//! line, the frontmatter block, a closing `---` line, and the body.
use vstd::prelude::*;

use crate::SiteError;
use crate::text::{
    chars_vec, is_ws, is_ws_char, lemma_ws_prefix, lemma_ws_prefix_is, string_from_chars, subvec,
    ws_prefix_len,
};

verus! {

/// Whether position `i` begins a line of `r`.
pub open spec fn is_line_start(r: Seq<char>, i: int) -> bool {
    i == 0 || r[i - 1] == '\n'
}

/// Whether a closing frontmatter delimiter stands at position `i` of `r`: a
/// line beginning `---`, followed by a line break or the end of the text.
pub open spec fn closing_at(r: Seq<char>, i: int) -> bool {
    &&& 0 <= i
    &&& is_line_start(r, i)
    &&& i + 3 <= r.len()
    &&& r[i] == '-' && r[i + 1] == '-' && r[i + 2] == '-'
    &&& (i + 3 == r.len() || r[i + 3] == '\n' || (r[i + 3] == '\r' && (i + 4 == r.len() || r[i + 4]
        == '\n')))
}

/// Where the body begins after a closing delimiter at `i`.
pub open spec fn body_start(r: Seq<char>, i: int) -> int {
    if i + 3 == r.len() {
        r.len() as int
    } else if r[i + 3] == '\n' {
        i + 4
    } else if i + 4 == r.len() {
        r.len() as int
    } else {
        i + 5
    }
}

/// The first closing delimiter at or after `i`.
pub open spec fn first_closing_from(r: Seq<char>, i: int) -> Option<int>
    decreases r.len() - i when 0 <= i <= r.len()
{
    if i + 3 > r.len() {
        None
    } else if closing_at(r, i) {
        Some(i)
    } else {
        first_closing_from(r, i + 1)
    }
}

pub proof fn lemma_first_closing(r: Seq<char>, i: int)
    requires
        0 <= i <= r.len(),
    ensures
        match first_closing_from(r, i) {
            Some(k) => i <= k && closing_at(r, k) && forall|j: int| i <= j < k ==> !closing_at(r, j),
            None => forall|j: int| i <= j < r.len() ==> !closing_at(r, j),
        },
    decreases r.len() - i,
{
    if i + 3 > r.len() {
    } else if closing_at(r, i) {
    } else {
        lemma_first_closing(r, i + 1);
    }
}

pub proof fn lemma_first_closing_is(r: Seq<char>, k: int)
    requires
        closing_at(r, k),
        forall|j: int| 0 <= j < k ==> !closing_at(r, j),
    ensures
        first_closing_from(r, 0) == Some(k),
{
    lemma_first_closing(r, 0);
    match first_closing_from(r, 0) {
        Some(m) => {
            if m < k {
                assert(!closing_at(r, m));
            }
            if k < m {
                assert(!closing_at(r, k));
            }
        },
        None => {
            assert(!closing_at(r, k));
        },
    }
}

/// Whether the document opens with optional whitespace, `---`, and a line
/// break.
pub open spec fn spec_opening_ok(s: Seq<char>) -> bool {
    let w = ws_prefix_len(s);
    &&& w + 4 <= s.len()
    &&& s[w] == '-' && s[w + 1] == '-' && s[w + 2] == '-'
    &&& (s[w + 3] == '\n' || (s[w + 3] == '\r' && w + 4 < s.len() && s[w + 4] == '\n'))
}

/// The index just after the opening delimiter's line break.
pub open spec fn spec_after_opening(s: Seq<char>) -> int {
    let w = ws_prefix_len(s);
    if s[w + 3] == '\n' {
        w + 4
    } else {
        w + 5
    }
}

/// Splits a document into its frontmatter block and its body, or nothing when
/// the document does not have the required shape.
pub open spec fn spec_split_document(s: Seq<char>) -> Option<(Seq<char>, Seq<char>)> {
    if spec_opening_ok(s) {
        let r = s.skip(spec_after_opening(s));
        match first_closing_from(r, 0) {
            Some(k) => Some((r.take(k), r.skip(body_start(r, k)))),
            None => None,
        }
    } else {
        None
    }
}

fn closing_check(v: &Vec<char>, p: usize, i: usize) -> (r: bool)
    requires
        p <= i,
        i + 3 <= v@.len(),
    ensures
        r == closing_at(v@.skip(p as int), i - p),
{
    let n = v.len();
    let line_start = i == p || v[i - 1] == '\n';
    let dashes = v[i] == '-' && v[i + 1] == '-' && v[i + 2] == '-';
    let ending = i + 3 == n || v[i + 3] == '\n' || (v[i + 3] == '\r' && (i + 4 == n || v[i + 4]
        == '\n'));
    proof {
        let r = v@.skip(p as int);
        let k = i - p;
        assert(r.len() == v@.len() - p);
        assert(r[k] == v@[i as int]);
        assert(r[k + 1] == v@[i + 1]);
        assert(r[k + 2] == v@[i + 2]);
        if k > 0 {
            assert(r[k - 1] == v@[i - 1]);
        }
        if i + 3 < n {
            assert(r[k + 3] == v@[i + 3]);
        }
        if i + 4 < n {
            assert(r[k + 4] == v@[i + 4]);
        }
    }
    line_start && dashes && ending
}

/// Splits a raw document into `(frontmatter block, body)`. A document that
/// does not match the required structural shape — optional leading
/// whitespace, a `---` line, the frontmatter, a closing `---` line, then the
/// body — is a `MalformedDocument`.
pub fn split_document(content: &str) -> (res: Result<(String, String), SiteError>)
    ensures
        match res {
            Ok(parts) => spec_split_document(content@) == Some((parts.0@, parts.1@)),
            Err(e) => spec_split_document(content@) is None && e == SiteError::MalformedDocument,
        },
{
    let v = chars_vec(content);
    let n = v.len();
    let mut w: usize = 0;
    while w < n && is_ws_char(v[w])
        invariant
            0 <= w <= n == v@.len(),
            forall|j: int| 0 <= j < w ==> is_ws(v@[j]),
        decreases n - w,
    {
        w = w + 1;
    }
    proof {
        lemma_ws_prefix_is(v@, w as int);
    }
    if n < 4 || w > n - 4 {
        return Err(SiteError::MalformedDocument);
    }
    if !(v[w] == '-' && v[w + 1] == '-' && v[w + 2] == '-') {
        return Err(SiteError::MalformedDocument);
    }
    let p: usize = if v[w + 3] == '\n' {
        w + 4
    } else if v[w + 3] == '\r' && w + 4 < n && v[w + 4] == '\n' {
        w + 5
    } else {
        return Err(SiteError::MalformedDocument);
    };
    let ghost r = v@.skip(p as int);
    let mut i: usize = p;
    while n - i >= 3 && !closing_check(&v, p, i)
        invariant
            p <= i <= n == v@.len(),
            p == spec_after_opening(v@),
            spec_opening_ok(v@),
            r == v@.skip(p as int),
            forall|j: int| 0 <= j < i - p ==> !closing_at(r, j),
        decreases n - i,
    {
        i = i + 1;
    }
    if n - i >= 3 {
        // a closing delimiter stands at i
        proof {
            lemma_first_closing_is(r, i - p);
        }
        let fm = string_from_chars(&subvec(&v, p, i));
        let bs: usize = if i + 3 == n {
            n
        } else if v[i + 3] == '\n' {
            i + 4
        } else if i + 4 == n {
            n
        } else {
            i + 5
        };
        proof {
            if i + 3 < n {
                assert(r[i - p + 3] == v@[i + 3]);
            }
            if i + 4 < n {
                assert(r[i - p + 4] == v@[i + 4]);
            }
            assert(bs - p == body_start(r, i - p));
            assert(r.take(i - p) =~= v@.subrange(p as int, i as int));
            assert(r.skip(bs - p) =~= v@.subrange(bs as int, n as int));
        }
        let body = string_from_chars(&subvec(&v, bs, n));
        Ok((fm, body))
    } else {
        proof {
            lemma_first_closing(r, 0);
            if first_closing_from(r, 0) is Some {
                let k = first_closing_from(r, 0)->Some_0;
                assert(!closing_at(r, k));
            }
        }
        Err(SiteError::MalformedDocument)
    }
}

/// The delimiter line that opens and closes a frontmatter block.
pub open spec fn spec_delim_line() -> Seq<char> {
    seq!['-', '-', '-', '\n']
}

/// A document rebuilt from a frontmatter block and a body.
pub open spec fn spec_join_document(fm: Seq<char>, body: Seq<char>) -> Seq<char> {
    spec_delim_line() + fm + spec_delim_line() + body
}

/// Rebuilds a document from a frontmatter block and a body.
pub fn join_document(fm: &str, body: &str) -> (r: String)
    ensures
        r@ == spec_join_document(fm@, body@),
{
    let mut v: Vec<char> = Vec::new();
    v.push('-');
    v.push('-');
    v.push('-');
    v.push('\n');
    let mut f = chars_vec(fm);
    v.append(&mut f);
    v.push('-');
    v.push('-');
    v.push('-');
    v.push('\n');
    let mut b = chars_vec(body);
    v.append(&mut b);
    proof {
        assert(v@ =~= spec_join_document(fm@, body@));
    }
    string_from_chars(&v)
}

/// In a text whose first `k` characters mirror `r_old`, end with a line
/// break, and are followed by a `---` line, no closing delimiter stands
/// before `k` unless `r_old` had one there.
proof fn lemma_closing_mirrors(r_old: Seq<char>, r_new: Seq<char>, k: int, j: int)
    requires
        0 <= j < k,
        k + 3 <= r_old.len(),
        r_new.len() >= k + 4,
        forall|x: int| 0 <= x < k ==> r_new[x] == r_old[x],
        r_new[k] == '-' && r_new[k + 1] == '-' && r_new[k + 2] == '-' && r_new[k + 3] == '\n',
        k > 0 ==> r_old[k - 1] == '\n',
        !closing_at(r_old, j),
    ensures
        !closing_at(r_new, j),
{
    if closing_at(r_new, j) {
        if j >= k - 3 {
            // the dash window would cover the final line break of the mirror
            let m = k - 1;
            assert(j <= m <= j + 2);
            assert(r_new[m] == '\n');
            if m == j {
                assert(r_new[j] == '-');
            } else if m == j + 1 {
                assert(r_new[j + 1] == '-');
            } else {
                assert(r_new[j + 2] == '-');
            }
            assert(false);
        } else {
            // the whole window lies in the mirrored region
            assert(r_new[j] == r_old[j] && r_new[j + 1] == r_old[j + 1] && r_new[j + 2] == r_old[j
                + 2]);
            if j > 0 {
                assert(r_new[j - 1] == r_old[j - 1]);
            }
            assert(j + 3 < k);
            assert(r_new[j + 3] == r_old[j + 3]);
            assert(j + 3 < r_new.len() && j + 3 < r_old.len());
            if r_new[j + 3] == '\n' {
                assert(closing_at(r_old, j));
            } else {
                assert(r_new[j + 3] == '\r');
                assert(j + 4 < r_new.len());
                assert(r_new[j + 4] == '\n');
                if j + 4 == k {
                    assert(r_new[j + 4] == '-');
                    assert(false);
                } else {
                    assert(j + 4 < k);
                    assert(r_new[j + 4] == r_old[j + 4]);
                    assert(closing_at(r_old, j));
                }
            }
            assert(false);
        }
    }
}

/// Splitting a valid document and rejoining the two parts yields a document
/// that splits to exactly the same frontmatter block and body.
pub proof fn lemma_split_then_rejoin(doc: Seq<char>)
    requires
        spec_split_document(doc) is Some,
    ensures
        ({
            let parts = spec_split_document(doc)->Some_0;
            spec_split_document(spec_join_document(parts.0, parts.1)) == Some(parts)
        }),
{
    let w = ws_prefix_len(doc);
    let p = spec_after_opening(doc);
    let r_old = doc.skip(p);
    lemma_ws_prefix(doc);
    lemma_first_closing(r_old, 0);
    let k = first_closing_from(r_old, 0)->Some_0;
    let fm = r_old.take(k);
    let body = r_old.skip(body_start(r_old, k));
    let d = spec_join_document(fm, body);
    let r_new = fm + spec_delim_line() + body;

    // the rebuilt document opens with `---` and a line break at position 0
    assert(d[0] == '-');
    assert(!is_ws(d[0]));
    lemma_ws_prefix_is(d, 0);
    assert(d[1] == '-' && d[2] == '-' && d[3] == '\n');
    assert(spec_opening_ok(d));
    assert(spec_after_opening(d) == 4);
    assert(d.skip(4) =~= r_new);

    // fm is empty or ends with a line break
    assert(fm.len() == k);
    if k > 0 {
        assert(r_old[k - 1] == '\n');
        assert(fm[k - 1] == '\n');
    }

    // a closing delimiter stands at the end of fm in the rebuilt document
    assert(r_new[k] == '-' && r_new[k + 1] == '-' && r_new[k + 2] == '-' && r_new[k + 3] == '\n');
    assert(closing_at(r_new, k));

    // and none stands earlier: positions in fm mirror the original document
    assert forall|x: int| 0 <= x < k implies r_new[x] == r_old[x] by {
        assert(r_new[x] == fm[x]);
    }
    assert forall|j: int| 0 <= j < k implies !closing_at(r_new, j) by {
        assert(!closing_at(r_old, j));
        lemma_closing_mirrors(r_old, r_new, k, j);
    }
    lemma_first_closing_is(r_new, k);
    assert(body_start(r_new, k) == k + 4);
    assert(r_new.take(k) =~= fm);
    assert(r_new.skip(k + 4) =~= body);
}

} // verus!
