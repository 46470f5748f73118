//! Frontmatter field decoding: calendar dates with soft failure, and tags
//! given either as one comma-separated string or as a list of strings.
use vstd::prelude::*;

use crate::SiteError;
use crate::text::{
    chars_vec, dec_pad, first_index_of, is_ws, lemma_first_index_of, lemma_first_index_of_is,
    lemma_ws_prefix, lemma_ws_prefix_is, lemma_ws_suffix, lemma_ws_suffix_is, spec_dec_pad,
    spec_split_char, spec_trim, split_char, string_from_chars, strings_view, trim_chars,
    ws_prefix_len, ws_suffix_len,
};

verus! {

/// A calendar date, as the plain values the pipeline reads from it.
#[derive(Debug, Clone, Copy, PartialEq, Eq, Structural)]
pub struct Date {
    pub year: i32,
    pub month: u32,
    pub day: u32,
}

pub open spec fn is_leap_year(y: int) -> bool {
    (y % 4 == 0 && y % 100 != 0) || y % 400 == 0
}

pub open spec fn days_in_month(y: int, m: int) -> int {
    if m == 2 {
        if is_leap_year(y) {
            29
        } else {
            28
        }
    } else if m == 4 || m == 6 || m == 9 || m == 11 {
        30
    } else {
        31
    }
}

/// Well-formedness of a `Date`.
pub open spec fn date_valid(d: Date) -> bool {
    &&& 0 <= d.year <= 9999
    &&& 1 <= d.month <= 12
    &&& 1 <= d.day <= days_in_month(d.year as int, d.month as int)
}

/// The numeric value of a digit character.
pub open spec fn digit_val(c: char) -> int {
    c as int - '0' as int
}

pub open spec fn is_digit(c: char) -> bool {
    '0' <= c && c <= '9'
}

/// The date denoted by an ISO `YYYY-MM-DD` string, ignoring validity.
pub open spec fn spec_date_of(s: Seq<char>) -> Date {
    Date {
        year: (digit_val(s[0]) * 1000 + digit_val(s[1]) * 100 + digit_val(s[2]) * 10 + digit_val(
            s[3],
        )) as i32,
        month: (digit_val(s[5]) * 10 + digit_val(s[6])) as u32,
        day: (digit_val(s[8]) * 10 + digit_val(s[9])) as u32,
    }
}

/// Whether `s` has the shape `YYYY-MM-DD` with all digits in place.
pub open spec fn spec_date_shape(s: Seq<char>) -> bool {
    &&& s.len() == 10
    &&& is_digit(s[0]) && is_digit(s[1]) && is_digit(s[2]) && is_digit(s[3])
    &&& s[4] == '-'
    &&& is_digit(s[5]) && is_digit(s[6])
    &&& s[7] == '-'
    &&& is_digit(s[8]) && is_digit(s[9])
}

/// The date an ISO calendar-date string denotes, or none when the string is
/// not a valid date.
pub open spec fn spec_parse_date(s: Seq<char>) -> Option<Date> {
    if spec_date_shape(s) && date_valid(spec_date_of(s)) {
        Some(spec_date_of(s))
    } else {
        None
    }
}

impl Date {
    /// Whether the date is well formed: a year representable in four digits,
    /// a real month, and a day the month has in that year.
    pub fn is_valid(&self) -> (r: bool)
        ensures
            r == date_valid(*self),
    {
        0 <= self.year && self.year <= 9999 && 1 <= self.month && self.month <= 12 && 1 <= self.day
            && self.day <= days_in_month_exec(self.year, self.month)
    }
}

fn digit_value(c: char) -> (r: u32)
    requires
        is_digit(c),
    ensures
        r == digit_val(c),
{
    (c as u32) - 48
}

fn is_digit_exec(c: char) -> (r: bool)
    ensures
        r == is_digit(c),
{
    '0' <= c && c <= '9'
}

/// Decodes an ISO calendar-date string. An unparseable or out-of-range date
/// yields no date rather than an error: date parsing fails softly by design.
pub fn deserialize(s: &str) -> (r: Option<Date>)
    ensures
        r == spec_parse_date(s@),
        r matches Some(d) ==> date_valid(d),
{
    let v = chars_vec(s);
    if v.len() != 10 {
        return None;
    }
    if !(is_digit_exec(v[0]) && is_digit_exec(v[1]) && is_digit_exec(v[2]) && is_digit_exec(v[3])
        && v[4] == '-' && is_digit_exec(v[5]) && is_digit_exec(v[6]) && v[7] == '-'
        && is_digit_exec(v[8]) && is_digit_exec(v[9])) {
        return None;
    }
    let year = digit_value(v[0]) * 1000 + digit_value(v[1]) * 100 + digit_value(v[2]) * 10
        + digit_value(v[3]);
    let month = digit_value(v[5]) * 10 + digit_value(v[6]);
    let day = digit_value(v[8]) * 10 + digit_value(v[9]);
    let d = Date { year: year as i32, month, day };
    if month < 1 || month > 12 {
        return None;
    }
    let dim = days_in_month_exec(year as i32, month);
    if day < 1 || day > dim {
        return None;
    }
    Some(d)
}

fn days_in_month_exec(y: i32, m: u32) -> (r: u32)
    requires
        0 <= y <= 9999,
        1 <= m <= 12,
    ensures
        r == days_in_month(y as int, m as int),
{
    if m == 2 {
        if (y % 4 == 0 && y % 100 != 0) || y % 400 == 0 {
            29
        } else {
            28
        }
    } else if m == 4 || m == 6 || m == 9 || m == 11 {
        30
    } else {
        31
    }
}

/// The `YYYY-MM-DD` rendering of a date.
pub open spec fn spec_format_date(d: Date) -> Seq<char> {
    spec_dec_pad(d.year as nat, 4) + seq!['-'] + spec_dec_pad(d.month as nat, 2) + seq!['-']
        + spec_dec_pad(d.day as nat, 2)
}

/// Renders a date as `YYYY-MM-DD`.
pub fn format_date(d: &Date) -> (r: String)
    requires
        date_valid(*d),
    ensures
        r@ == spec_format_date(*d),
{
    let mut v = dec_pad(d.year as usize, 4);
    v.push('-');
    let mut m = dec_pad(d.month as usize, 2);
    v.append(&mut m);
    v.push('-');
    let mut dd = dec_pad(d.day as usize, 2);
    v.append(&mut dd);
    proof {
        assert(v@ =~= spec_format_date(*d));
    }
    string_from_chars(&v)
}

/// The tag sequence denoted by a comma separated string: the segments between
/// commas, each trimmed of surrounding whitespace.
pub open spec fn spec_tags_of_string(s: Seq<char>) -> Seq<Seq<char>> {
    spec_split_char(s, ',').map_values(|t: Seq<char>| spec_trim(t))
}

/// Splits a comma separated tag string into trimmed tags.
pub fn tags_from_string(s: &str) -> (r: Vec<String>)
    ensures
        strings_view(r@) == spec_tags_of_string(s@),
{
    let v = chars_vec(s);
    let segs = split_char(&v, ',');
    let mut out: Vec<String> = Vec::new();
    let mut i: usize = 0;
    while i < segs.len()
        invariant
            0 <= i <= segs@.len(),
            out@.len() == i,
            crate::text::seqs_view(segs@) == spec_split_char(s@, ','),
            forall|j: int| 0 <= j < i ==> #[trigger] out@[j]@ == spec_trim(segs@[j]@),
        decreases segs@.len() - i,
    {
        let t = trim_chars(&segs[i]);
        out.push(string_from_chars(&t));
        i = i + 1;
    }
    proof {
        assert(strings_view(out@) =~= spec_tags_of_string(s@));
    }
    out
}

/// A frontmatter field value, reduced to the shapes the decoder distinguishes:
/// a string, a list whose string items are kept (a non-string item is `None`),
/// an explicit null, or anything else.
pub enum FmValue {
    Text(String),
    Items(Vec<Option<String>>),
    Null,
    Other,
}

/// The abstract value of an `FmValue`.
pub enum FmValueSpec {
    Text(Seq<char>),
    Items(Seq<Option<Seq<char>>>),
    Null,
    Other,
}

/// One key/value entry of a frontmatter mapping; a non-string key is `None`.
pub struct FmEntry {
    pub key: Option<String>,
    pub value: FmValue,
}

/// The abstract value of an `FmEntry`.
pub struct FmEntrySpec {
    pub key: Option<Seq<char>>,
    pub value: FmValueSpec,
}

pub open spec fn opt_str_view(o: Option<String>) -> Option<Seq<char>> {
    match o {
        Some(s) => Some(s@),
        None => None,
    }
}

pub open spec fn fm_value_view(v: FmValue) -> FmValueSpec {
    match v {
        FmValue::Text(s) => FmValueSpec::Text(s@),
        FmValue::Items(xs) => FmValueSpec::Items(
            xs@.map_values(|o: Option<String>| opt_str_view(o)),
        ),
        FmValue::Null => FmValueSpec::Null,
        FmValue::Other => FmValueSpec::Other,
    }
}

pub open spec fn fm_entry_view(e: FmEntry) -> FmEntrySpec {
    FmEntrySpec { key: opt_str_view(e.key), value: fm_value_view(e.value) }
}

pub open spec fn fm_entries_view(es: Seq<FmEntry>) -> Seq<FmEntrySpec> {
    es.map_values(|e: FmEntry| fm_entry_view(e))
}

/// The entries of the top-level YAML mapping that `s` denotes, in document
/// order, or none when `s` is not a YAML mapping.
pub uninterp spec fn yaml_entries_of(s: Seq<char>) -> Option<Seq<FmEntrySpec>>;

#[verifier::external_type_specification]
#[verifier::external_body]
pub struct ExYamlValue(serde_yaml::Value);

/// Relies on the shape of `serde_yaml::Value`: reduces one field value to the
/// shapes the decoder distinguishes, one variant arm each — a string, a
/// sequence with its string items kept, a null, anything else.
#[verifier::external_body]
fn fm_value_of(v: serde_yaml::Value) -> FmValue {
    match v {
        serde_yaml::Value::String(t) => FmValue::Text(t),
        serde_yaml::Value::Null => FmValue::Null,
        serde_yaml::Value::Sequence(xs) => FmValue::Items(
            xs.into_iter().map(|x| match x {
                serde_yaml::Value::String(t) => Some(t),
                _ => None,
            }).collect(),
        ),
        _ => FmValue::Other,
    }
}

/// Relies on `serde_yaml::from_str::<Value>`: parsing is a pure function of
/// the text; the entries of a top-level mapping are converted one to one, in
/// document order, and anything that fails to parse or is not a mapping
/// yields nothing.
#[verifier::external_body]
pub fn parse_yaml_mapping(s: &str) -> (r: Option<Vec<FmEntry>>)
    ensures
        match r {
            Some(es) => yaml_entries_of(s@) == Some(fm_entries_view(es@)),
            None => yaml_entries_of(s@) is None,
        },
{
    let v: serde_yaml::Value = match serde_yaml::from_str(s) {
        Ok(v) => v,
        Err(_) => return None,
    };
    let m = match v {
        serde_yaml::Value::Mapping(m) => m,
        _ => return None,
    };
    Some(m.into_iter().map(|(k, val)| FmEntry {
        key: if let serde_yaml::Value::String(t) = k { Some(t) } else { None },
        value: fm_value_of(val),
    }).collect())
}

/// The first entry with the given string key, if any.
pub open spec fn spec_lookup(es: Seq<FmEntrySpec>, key: Seq<char>) -> Option<FmValueSpec>
    decreases es.len(),
{
    if es.len() == 0 {
        None
    } else if es[0].key == Some(key) {
        Some(es[0].value)
    } else {
        spec_lookup(es.drop_first(), key)
    }
}

/// Finds the first entry with the given key.
pub fn lookup<'a>(entries: &'a Vec<FmEntry>, key: &String) -> (r: Option<&'a FmValue>)
    ensures
        match r {
            Some(v) => spec_lookup(fm_entries_view(entries@), key@) == Some(fm_value_view(*v)),
            None => spec_lookup(fm_entries_view(entries@), key@) is None,
        },
{
    let ghost es = fm_entries_view(entries@);
    proof {
        assert(es.skip(0) =~= es);
    }
    let mut i: usize = 0;
    while i < entries.len()
        invariant
            0 <= i <= entries@.len(),
            es == fm_entries_view(entries@),
            es.len() == entries@.len(),
            spec_lookup(es, key@) == spec_lookup(es.skip(i as int), key@),
        decreases entries@.len() - i,
    {
        proof {
            assert(es[i as int] == fm_entry_view(entries@[i as int]));
            assert(es.skip(i as int)[0] == es[i as int]);
            assert(es.skip(i as int).drop_first() =~= es.skip(i + 1));
        }
        let matches_key = match &entries[i].key {
            Some(k) => {
                let b = *k == *key;
                proof {
                    assert(entries@[i as int].key == Some(*k));
                    assert(opt_str_view(entries@[i as int].key) == Some(k@));
                    assert(es[i as int].key == Some(k@));
                    if b {
                        assert(es[i as int].key == Some(key@));
                    } else {
                        assert(es[i as int].key != Some(key@));
                    }
                }
                b
            },
            None => {
                proof {
                    assert(entries@[i as int].key is None);
                    assert(es[i as int].key is None);
                }
                false
            },
        };
        if matches_key {
            return Some(&entries[i].value);
        }
        i = i + 1;
    }
    proof {
        assert(es.skip(i as int) =~= Seq::<FmEntrySpec>::empty());
    }
    None
}

pub open spec fn all_some(items: Seq<Option<Seq<char>>>) -> bool {
    forall|i: int| 0 <= i < items.len() ==> items[i] is Some
}

pub open spec fn unwrap_items(items: Seq<Option<Seq<char>>>) -> Seq<Seq<char>> {
    items.map_values(|o: Option<Seq<char>>| o->Some_0)
}

/// The tags denoted by a frontmatter `tags` field: a string splits on commas
/// with each segment trimmed; a list of strings is taken as given; anything
/// else (a missing field, a null, a non-string item) is rejected.
pub open spec fn spec_tags_of(field: Option<FmValueSpec>) -> Option<Seq<Seq<char>>> {
    match field {
        Some(FmValueSpec::Text(s)) => Some(spec_tags_of_string(s)),
        Some(FmValueSpec::Items(items)) => if all_some(items) {
            Some(unwrap_items(items))
        } else {
            None
        },
        _ => None,
    }
}

/// Decodes the `tags` field. Both encodings — one comma separated string, or
/// a native list of strings — yield the tag sequence; anything else is an
/// `InvalidFrontmatter` error.
pub fn deserialize_tags(field: Option<&FmValue>) -> (r: Result<Vec<String>, SiteError>)
    ensures
        ({
            let f = match field {
                Some(v) => Some(fm_value_view(*v)),
                None => None::<FmValueSpec>,
            };
            match r {
                Ok(tags) => spec_tags_of(f) == Some(strings_view(tags@)),
                Err(e) => spec_tags_of(f) is None && e == SiteError::InvalidFrontmatter,
            }
        }),
{
    match field {
        Some(v @ FmValue::Text(s)) => {
            proof {
                assert(fm_value_view(*v) == FmValueSpec::Text(s@));
            }
            Ok(tags_from_string(s.as_str()))
        },
        Some(v @ FmValue::Items(xs)) => {
            let ghost items = xs@.map_values(|o: Option<String>| opt_str_view(o));
            proof {
                assert(fm_value_view(*v) == FmValueSpec::Items(items));
            }
            let mut out: Vec<String> = Vec::new();
            let mut i: usize = 0;
            while i < xs.len()
                invariant
                    0 <= i <= xs@.len(),
                    field == Some(v),
                    fm_value_view(*v) == FmValueSpec::Items(items),
                    items == xs@.map_values(|o: Option<String>| opt_str_view(o)),
                    out@.len() == i,
                    forall|j: int| 0 <= j < i ==> items[j] is Some,
                    forall|j: int| 0 <= j < i ==> #[trigger] out@[j]@ == items[j]->Some_0,
                decreases xs@.len() - i,
            {
                match &xs[i] {
                    Some(s) => {
                        out.push(s.clone());
                    },
                    None => {
                        proof {
                            assert(items[i as int] is None);
                            assert(!all_some(items));
                        }
                        return Err(SiteError::InvalidFrontmatter);
                    },
                }
                i = i + 1;
            }
            proof {
                assert(all_some(items));
                assert(strings_view(out@) =~= unwrap_items(items));
            }
            Ok(out)
        },
        _ => Err(SiteError::InvalidFrontmatter),
    }
}

/// A string that trimming leaves unchanged has no whitespace at its ends.
proof fn lemma_trim_fixed(x: Seq<char>)
    requires
        spec_trim(x) == x,
        x.len() > 0,
    ensures
        !is_ws(x[0]),
        !is_ws(x.last()),
{
    lemma_ws_prefix(x);
    lemma_ws_suffix(x);
    let p = ws_prefix_len(x);
    let q = ws_suffix_len(x);
    if p == x.len() {
        assert(spec_trim(x).len() == 0);
        assert(false);
    } else {
        if x.len() - q <= p {
            assert(is_ws(x[p]));
            assert(false);
        }
        assert(spec_trim(x).len() == x.len() - q - p);
        assert(p == 0 && q == 0);
    }
}

/// A single leading space disappears under trimming.
proof fn lemma_trim_space_prefix(x: Seq<char>)
    requires
        spec_trim(x) == x,
    ensures
        spec_trim(seq![' '] + x) == x,
{
    let s = seq![' '] + x;
    assert(s[0] == ' ');
    if x.len() == 0 {
        lemma_ws_prefix_is(s, 1);
        assert(spec_trim(s) =~= x);
    } else {
        lemma_trim_fixed(x);
        assert(s[1] == x[0]);
        lemma_ws_prefix_is(s, 1);
        assert(s[s.len() - 1] == x.last());
        lemma_ws_suffix_is(s, 0);
        assert(spec_trim(s) =~= x);
    }
}

/// Tag decoding is invariant under representation: a comma separated string
/// of three tags decodes to the same ordered tag sequence as the native
/// three-element list of the same tags — provided each tag holds no comma
/// and no whitespace at its ends, as a tag written either way does.
pub proof fn lemma_tags_representation(a: Seq<char>, b: Seq<char>, c: Seq<char>)
    requires
        forall|i: int| 0 <= i < a.len() ==> a[i] != ',',
        forall|i: int| 0 <= i < b.len() ==> b[i] != ',',
        forall|i: int| 0 <= i < c.len() ==> c[i] != ',',
        spec_trim(a) == a,
        spec_trim(b) == b,
        spec_trim(c) == c,
    ensures
        spec_tags_of_string(a + seq![',', ' '] + b + seq![',', ' '] + c) == seq![a, b, c],
        spec_tags_of(Some(FmValueSpec::Items(seq![Some(a), Some(b), Some(c)]))) == Some(
            seq![a, b, c],
        ),
{
    let sep = seq![',', ' '];
    let s = a + seq![',', ' '] + b + seq![',', ' '] + c;
    // the first comma stands right after `a`
    assert(s[a.len() as int] == ',');
    assert forall|j: int| 0 <= j < a.len() implies s[j] != ',' by {
        assert(s[j] == a[j]);
    }
    lemma_first_index_of_is(s, ',', a.len() as int);
    let t1 = s.skip(a.len() as int + 1);
    assert(s.take(a.len() as int) =~= a);
    assert(t1 =~= seq![' '] + b + sep + c);
    // the second comma stands right after the space and `b`
    assert(t1[1 + b.len() as int] == ',');
    assert forall|j: int| 0 <= j < 1 + b.len() implies t1[j] != ',' by {
        if j == 0 {
            assert(t1[0] == ' ');
        } else {
            assert(t1[j] == b[j - 1]);
        }
    }
    lemma_first_index_of_is(t1, ',', 1 + b.len() as int);
    let seg2 = t1.take(1 + b.len() as int);
    assert(seg2 =~= seq![' '] + b);
    let t2 = t1.skip(2 + b.len() as int);
    assert(t2 =~= seq![' '] + c);
    // no comma is left in the final segment
    lemma_first_index_of(t2, ',');
    if first_index_of(t2, ',') is Some {
        let i = first_index_of(t2, ',')->Some_0;
        if i == 0 {
            assert(t2[0] == ' ');
        } else {
            assert(t2[i] == c[i - 1]);
        }
        assert(false);
    }
    assert(spec_split_char(t2, ',') =~= seq![t2]);
    assert(spec_split_char(t1, ',') =~= seq![seg2] + seq![t2]);
    assert(spec_split_char(s, ',') =~= seq![a, seg2, t2]);
    lemma_trim_space_prefix(b);
    lemma_trim_space_prefix(c);
    assert(spec_tags_of_string(s) =~= seq![a, b, c]);
    // the list encoding decodes to the same tags
    let items = seq![Some(a), Some(b), Some(c)];
    assert forall|i: int| 0 <= i < items.len() implies items[i] is Some by {
        if i == 0 {
            assert(items[0] == Some(a));
        } else if i == 1 {
            assert(items[1] == Some(b));
        } else {
            assert(items[2] == Some(c));
        }
    }
    assert(all_some(items));
    assert(unwrap_items(items) =~= seq![a, b, c]);
}

} // verus!
