//! Record types, registry keys, and the per-type formatting of resolved
//! values into their string-encoded record form.

use vstd::prelude::*;
use vstd::string::StringExecFns;

verus! {

/// The closed set of record types a flattening target may carry.
///
/// `PTR` and `CNAME` are pass-through: they are never flattened and always
/// resolve to an empty value set.
#[derive(Clone, Copy, PartialEq, Eq, Structural, Debug, Hash)]
pub enum RecordType {
    A,
    AAAA,
    MX,
    TXT,
    PTR,
    CNAME,
}

impl RecordType {
    /// Whether flattening this type requires an upstream lookup at all.
    pub open spec fn spec_needs_upstream(self) -> bool {
        !(self is PTR || self is CNAME)
    }

    /// Pass-through types (PTR, CNAME) never reach the upstream resolver.
    pub fn needs_upstream(&self) -> (r: bool)
        ensures
            r == self.spec_needs_upstream(),
    {
        match self {
            RecordType::PTR => false,
            RecordType::CNAME => false,
            _ => true,
        }
    }
}

/// Identifies one flattening target: the target name and the record type
/// requested of it.
pub struct DNSFlattenRegistryKey {
    pub record_value: String,
    pub record_type: RecordType,
}

impl View for DNSFlattenRegistryKey {
    type V = (Seq<char>, RecordType);

    open spec fn view(&self) -> (Seq<char>, RecordType) {
        (self.record_value@, self.record_type)
    }
}

impl DNSFlattenRegistryKey {
    pub fn new(record_value: String, record_type: RecordType) -> (r: Self)
        ensures
            r@ == (record_value@, record_type),
    {
        DNSFlattenRegistryKey { record_value, record_type }
    }

    /// An owned copy of the key, equal to it.
    pub fn duplicate(&self) -> (r: Self)
        ensures
            r@ == self@,
    {
        DNSFlattenRegistryKey {
            record_value: self.record_value.clone(),
            record_type: self.record_type,
        }
    }

    /// Key equality, as used by the registry and the pending queue.
    pub fn same_key(&self, other: &Self) -> (r: bool)
        ensures
            r == (self@ == other@),
    {
        let r = self.record_value.eq(&other.record_value) && self.record_type == other.record_type;
        proof {
            if r {
                assert(self@ == other@);
            }
        }
        r
    }
}

/// One mail-exchange record handed over from the upstream resolver.
pub struct MxRecord {
    pub preference: u16,
    pub exchange: String,
}

/// One text record handed over from the upstream resolver: its
/// character-string segments, in order.
pub struct TxtRecord {
    pub segments: Vec<String>,
}

/// The character for one decimal digit.
pub open spec fn spec_digit_char(d: nat) -> char {
    if d == 0 {
        '0'
    } else if d == 1 {
        '1'
    } else if d == 2 {
        '2'
    } else if d == 3 {
        '3'
    } else if d == 4 {
        '4'
    } else if d == 5 {
        '5'
    } else if d == 6 {
        '6'
    } else if d == 7 {
        '7'
    } else if d == 8 {
        '8'
    } else {
        '9'
    }
}

/// The decimal digits of `n`, most significant first, with no leading zero
/// except for `n == 0` itself.
pub open spec fn spec_dec_digits(n: nat) -> Seq<char>
    decreases n,
{
    if n < 10 {
        seq![spec_digit_char(n)]
    } else {
        spec_dec_digits(n / 10).push(spec_digit_char(n % 10))
    }
}

/// A single decimal digit as a string slice.
fn digit_str(d: u16) -> (r: &'static str)
    requires
        d < 10,
    ensures
        r@ == seq![spec_digit_char(d as nat)],
{
    let r: &'static str = match d {
        0 => "0",
        1 => "1",
        2 => "2",
        3 => "3",
        4 => "4",
        5 => "5",
        6 => "6",
        7 => "7",
        8 => "8",
        _ => "9",
    };
    proof {
        reveal_strlit("0");
        reveal_strlit("1");
        reveal_strlit("2");
        reveal_strlit("3");
        reveal_strlit("4");
        reveal_strlit("5");
        reveal_strlit("6");
        reveal_strlit("7");
        reveal_strlit("8");
        reveal_strlit("9");
        assert(r@ =~= seq![spec_digit_char(d as nat)]);
    }
    r
}

/// `n` written in decimal.
pub fn format_u16(n: u16) -> (r: String)
    ensures
        r@ == spec_dec_digits(n as nat),
    decreases n,
{
    if n < 10 {
        String::from_str(digit_str(n))
    } else {
        let mut s = format_u16(n / 10);
        let d = n % 10;
        s.append(digit_str(d));
        proof {
            assert(s@ =~= spec_dec_digits((n as nat) / 10).push(spec_digit_char((n as nat) % 10)));
        }
        s
    }
}

/// The string-encoded form of one mail-exchange record:
/// `"{preference} {exchange}"`.
pub open spec fn spec_mx_value(preference: u16, exchange: Seq<char>) -> Seq<char> {
    spec_dec_digits(preference as nat) + seq![' '] + exchange
}

/// Format one mail-exchange record, preference first.
pub fn format_mx_value(record: &MxRecord) -> (r: String)
    ensures
        r@ == spec_mx_value(record.preference, record.exchange@),
{
    let mut s = format_u16(record.preference);
    let space: &str = " ";
    proof {
        reveal_strlit(" ");
        assert(space@ =~= seq![' ']);
    }
    s.append(space);
    s.append(record.exchange.as_str());
    s
}

/// All segments of a text record, concatenated with no separator.
pub open spec fn spec_concat_segments(segments: Seq<Seq<char>>) -> Seq<char>
    decreases segments.len(),
{
    if segments.len() == 0 {
        Seq::empty()
    } else {
        segments[0] + spec_concat_segments(segments.drop_first())
    }
}

/// Format one text record: its segments joined with no separator.
pub fn format_txt_value(record: &TxtRecord) -> (r: String)
    ensures
        r@ == spec_concat_segments(record.segments.deep_view()),
{
    let ghost dv = record.segments.deep_view();
    let n = record.segments.len();
    let mut s = String::new();
    let mut i: usize = 0;
    proof {
        assert(dv.len() == n);
        assert(dv.skip(0) =~= dv);
    }
    while i < n
        invariant
            n == record.segments@.len(),
            dv == record.segments.deep_view(),
            i <= n,
            spec_concat_segments(dv) == s@ + spec_concat_segments(dv.skip(i as int)),
        decreases n - i,
    {
        let ghost pre = s@;
        s.append(record.segments[i].as_str());
        proof {
            assert(dv.skip(i as int).len() > 0);
            assert(dv.skip(i as int)[0] == dv[i as int]);
            assert(dv.skip(i as int).drop_first() =~= dv.skip(i + 1 as int));
            assert(record.segments@[i as int]@ == dv[i as int]);
            assert(pre + (dv[i as int] + spec_concat_segments(dv.skip(i + 1 as int))) =~= (pre
                + dv[i as int]) + spec_concat_segments(dv.skip(i + 1 as int)));
        }
        i += 1;
    }
    proof {
        assert(dv.skip(n as int) =~= Seq::<Seq<char>>::empty());
        assert(s@ =~= s@ + spec_concat_segments(dv.skip(n as int)));
    }
    s
}

/// Format a whole mail-exchange lookup, one value per record, preserving
/// the resolver's preference ordering.
pub fn format_mx_values(records: &Vec<MxRecord>) -> (r: Vec<String>)
    ensures
        r.deep_view() == records@.map(
            |i: int, rec: MxRecord| spec_mx_value(rec.preference, rec.exchange@),
        ),
{
    let n = records.len();
    let mut out: Vec<String> = Vec::new();
    let mut i: usize = 0;
    while i < n
        invariant
            n == records@.len(),
            i <= n,
            out@.len() == i,
            forall|j: int|
                0 <= j < i ==> (#[trigger] out@[j])@ == spec_mx_value(
                    records@[j].preference,
                    records@[j].exchange@,
                ),
        decreases n - i,
    {
        out.push(format_mx_value(&records[i]));
        i += 1;
    }
    proof {
        assert(out.deep_view() =~= records@.map(
            |i: int, rec: MxRecord| spec_mx_value(rec.preference, rec.exchange@),
        ));
    }
    out
}

/// Format a whole text lookup, one value per record.
pub fn format_txt_values(records: &Vec<TxtRecord>) -> (r: Vec<String>)
    ensures
        r.deep_view() == records@.map(
            |i: int, rec: TxtRecord| spec_concat_segments(rec.segments.deep_view()),
        ),
{
    let n = records.len();
    let mut out: Vec<String> = Vec::new();
    let mut i: usize = 0;
    while i < n
        invariant
            n == records@.len(),
            i <= n,
            out@.len() == i,
            forall|j: int|
                0 <= j < i ==> (#[trigger] out@[j])@ == spec_concat_segments(
                    records@[j].segments.deep_view(),
                ),
        decreases n - i,
    {
        out.push(format_txt_value(&records[i]));
        i += 1;
    }
    proof {
        assert(out.deep_view() =~= records@.map(
            |i: int, rec: TxtRecord| spec_concat_segments(rec.segments.deep_view()),
        ));
    }
    out
}

} // verus!
