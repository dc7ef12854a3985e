use vstd::prelude::*;
use vstd::slice::{slice_subrange, slice_to_vec};
use vstd::string::*;

verus! {

/// The LEB128 form of `v`: seven bits per byte, low bits first, the high bit
/// set on every byte but the last.
pub open spec fn varint_bytes(v: nat) -> Seq<u8>
    decreases v,
{
    if v < 128 {
        seq![v as u8]
    } else {
        seq![(v % 128 + 128) as u8] + varint_bytes(v / 128)
    }
}

/// Reads a varint from the front of `s` when `k` digits were already read:
/// the value and the number of bytes taken. At most ten digits, and a tenth
/// digit may only be 0 or 1, so that the value fits in 64 bits.
pub open spec fn varint_from(s: Seq<u8>, k: nat) -> Option<(nat, nat)>
    decreases s.len(),
{
    if s.len() == 0 || k >= 10 {
        None
    } else if s[0] < 128 {
        if k == 9 && s[0] >= 2 {
            None
        } else {
            Some((s[0] as nat, 1nat))
        }
    } else {
        match varint_from(s.skip(1), k + 1) {
            Some((v, n)) => Some(((s[0] - 128) as nat + 128 * v, n + 1)),
            None => None,
        }
    }
}

/// The varint at the front of `s`, with the number of bytes it takes.
pub open spec fn parse_varint(s: Seq<u8>) -> Option<(nat, nat)> {
    varint_from(s, 0)
}

/// Relies on prost::encoding::encode_varint: it appends the LEB128 form of
/// the value to the buffer.
#[verifier::external_body]
fn put_varint(v: u64, buf: &mut Vec<u8>)
    ensures
        final(buf)@ == old(buf)@ + varint_bytes(v as nat),
{
    prost::encoding::encode_varint(v, buf)
}

/// Relies on prost::encoding::decode_varint: it reads one varint from the
/// front of the slice (at most ten bytes, a tenth byte of 0 or 1) and fails
/// otherwise. Returns the value and the number of bytes left after it.
#[verifier::external_body]
fn take_varint(b: &[u8]) -> (r: Result<(u64, usize), String>)
    ensures
        match r {
            Ok((v, rest)) => rest <= b@.len() && parse_varint(b@) == Some(
                (v as nat, (b@.len() - rest) as nat),
            ),
            Err(_) => parse_varint(b@) is None,
        },
{
    let mut rest: &[u8] = b;
    match prost::encoding::decode_varint(&mut rest) {
        Ok(v) => Ok((v, rest.len())),
        Err(e) => Err(e.to_string()),
    }
}

pub proof fn lemma_varint_from_len(s: Seq<u8>, k: nat)
    ensures
        varint_from(s, k) matches Some((v, n)) ==> 1 <= n <= s.len(),
    decreases s.len(),
{
    if s.len() > 0 && k < 10 && s[0] >= 128 {
        lemma_varint_from_len(s.skip(1), k + 1);
    }
}

/// The largest value plus one that a varint can hold when `k` digits were
/// already read.
pub open spec fn varint_cap(k: nat) -> nat
    decreases 9 - k,
{
    if k >= 9 {
        2
    } else {
        128 * varint_cap(k + 1)
    }
}

pub proof fn lemma_varint_cap_zero()
    ensures
        varint_cap(0) == 0x1_0000_0000_0000_0000,
{
    reveal_with_fuel(varint_cap, 10);
}

pub proof fn lemma_varint_round_trip(v: nat, k: nat, rest: Seq<u8>)
    requires
        k <= 9,
        v < varint_cap(k),
    ensures
        varint_from(varint_bytes(v) + rest, k) == Some((v, varint_bytes(v).len())),
        1 <= varint_bytes(v).len() <= 10 - k,
    decreases v,
{
    let s = varint_bytes(v) + rest;
    if v < 128 {
        assert(s[0] == v as u8);
    } else {
        let c = varint_cap((k + 1) as nat);
        if k >= 9 {
            assert(false);
        }
        assert(v < 128 * c);
        assert(v / 128 < c) by (nonlinear_arith)
            requires
                v < 128 * c,
        ;
        lemma_varint_round_trip(v / 128, k + 1, rest);
        assert(s.skip(1) =~= varint_bytes(v / 128) + rest);
        assert(s[0] == (v % 128 + 128) as u8);
        if k + 1 > 9 {
            assert(false);
        }
    }
}

/// A field's contents as the wire carries them.
pub enum FieldData {
    Varint(nat),
    Fixed64(Seq<u8>),
    Delimited(Seq<u8>),
    Fixed32(Seq<u8>),
}

/// The wire type number that announces the data.
pub open spec fn wire_type_of(d: FieldData) -> nat {
    match d {
        FieldData::Varint(_) => 0,
        FieldData::Fixed64(_) => 1,
        FieldData::Delimited(_) => 2,
        FieldData::Fixed32(_) => 5,
    }
}

/// The bytes that follow a field's key.
pub open spec fn data_bytes(d: FieldData) -> Seq<u8> {
    match d {
        FieldData::Varint(x) => varint_bytes(x),
        FieldData::Fixed64(b) => b,
        FieldData::Delimited(b) => varint_bytes(b.len()) + b,
        FieldData::Fixed32(b) => b,
    }
}

/// One field: key (tag and wire type) then data.
pub open spec fn field_bytes(f: (nat, FieldData)) -> Seq<u8> {
    varint_bytes(f.0 * 8 + wire_type_of(f.1)) + data_bytes(f.1)
}

/// Fields one after the other: the body of a message.
pub open spec fn fields_bytes(fs: Seq<(nat, FieldData)>) -> Seq<u8>
    decreases fs.len(),
{
    if fs.len() == 0 {
        Seq::empty()
    } else {
        field_bytes(fs[0]) + fields_bytes(fs.skip(1))
    }
}

/// A field that an encoder can write and a decoder reads back as it was.
pub open spec fn field_wf(f: (nat, FieldData)) -> bool {
    &&& 1 <= f.0 < 0x2000_0000
    &&& match f.1 {
        FieldData::Varint(x) => x < 0x1_0000_0000_0000_0000,
        FieldData::Fixed64(b) => b.len() == 8,
        FieldData::Delimited(b) => b.len() < 0x1_0000_0000_0000_0000,
        FieldData::Fixed32(b) => b.len() == 4,
    }
}

/// Reads the field at the front of `s`: tag, data and bytes taken. The key
/// must fit in 32 bits, the tag must not be 0, and the wire type must be one
/// of 0, 1, 2 and 5.
pub open spec fn parse_field(s: Seq<u8>) -> Option<(nat, FieldData, nat)> {
    match parse_varint(s) {
        None => None,
        Some((key, n)) => {
            let rest = s.skip(n as int);
            let tag = key / 8;
            let wt = key % 8;
            if key > 0xffff_ffff || tag == 0 {
                None
            } else if wt == 0 {
                match parse_varint(rest) {
                    Some((x, m)) => Some((tag, FieldData::Varint(x), n + m)),
                    None => None,
                }
            } else if wt == 1 {
                if rest.len() >= 8 {
                    Some((tag, FieldData::Fixed64(rest.take(8)), n + 8))
                } else {
                    None
                }
            } else if wt == 2 {
                match parse_varint(rest) {
                    Some((len, m)) => if m + len <= rest.len() {
                        Some(
                            (
                                tag,
                                FieldData::Delimited(rest.subrange(m as int, (m + len) as int)),
                                n + m + len,
                            ),
                        )
                    } else {
                        None
                    },
                    None => None,
                }
            } else if wt == 5 {
                if rest.len() >= 4 {
                    Some((tag, FieldData::Fixed32(rest.take(4)), n + 4))
                } else {
                    None
                }
            } else {
                None
            }
        },
    }
}

/// Reads the whole of `s` as a sequence of fields.
pub open spec fn parse_fields(s: Seq<u8>) -> Option<Seq<(nat, FieldData)>>
    decreases s.len(),
{
    if s.len() == 0 {
        Some(Seq::empty())
    } else {
        match parse_field(s) {
            Some((tag, d, n)) => if 0 < n <= s.len() {
                match parse_fields(s.skip(n as int)) {
                    Some(r) => Some(seq![(tag, d)] + r),
                    None => None,
                }
            } else {
                None
            },
            None => None,
        }
    }
}

pub proof fn lemma_parse_field_len(s: Seq<u8>)
    ensures
        parse_field(s) matches Some((t, d, n)) ==> 1 <= n <= s.len(),
{
    lemma_varint_from_len(s, 0);
    if let Some((key, n)) = parse_varint(s) {
        lemma_varint_from_len(s.skip(n as int), 0);
    }
}

pub proof fn lemma_field_round_trip(f: (nat, FieldData), rest: Seq<u8>)
    requires
        field_wf(f),
    ensures
        parse_field(field_bytes(f) + rest) == Some((f.0, f.1, field_bytes(f).len())),
{
    let key = f.0 * 8 + wire_type_of(f.1);
    lemma_varint_cap_zero();
    let s = field_bytes(f) + rest;
    let kb = varint_bytes(key);
    let after = data_bytes(f.1) + rest;
    assert(s =~= kb + after);
    lemma_varint_round_trip(key, 0, after);
    assert(s.skip(kb.len() as int) =~= after);
    assert(key / 8 == f.0 && key % 8 == wire_type_of(f.1));
    match f.1 {
        FieldData::Varint(x) => {
            lemma_varint_round_trip(x, 0, rest);
        },
        FieldData::Fixed64(b) => {
            assert(after.take(8) =~= b);
        },
        FieldData::Delimited(b) => {
            let lb = varint_bytes(b.len());
            lemma_varint_round_trip(b.len(), 0, b + rest);
            assert(after =~= lb + (b + rest));
            assert(after.subrange(lb.len() as int, (lb.len() + b.len()) as int) =~= b);
        },
        FieldData::Fixed32(b) => {
            assert(after.take(4) =~= b);
        },
    }
}

pub proof fn lemma_fields_round_trip(fs: Seq<(nat, FieldData)>)
    requires
        forall|i: int| 0 <= i < fs.len() ==> field_wf(#[trigger] fs[i]),
    ensures
        parse_fields(fields_bytes(fs)) == Some(fs),
    decreases fs.len(),
{
    if fs.len() > 0 {
        let tail = fs.skip(1);
        assert forall|i: int| 0 <= i < tail.len() implies field_wf(#[trigger] tail[i]) by {
            assert(tail[i] == fs[i + 1]);
        }
        lemma_fields_round_trip(tail);
        let s = fields_bytes(fs);
        lemma_field_round_trip(fs[0], fields_bytes(tail));
        let n = field_bytes(fs[0]).len();
        assert(s.skip(n as int) =~= fields_bytes(tail));
        assert(seq![fs[0]] + tail =~= fs);
    }
}

pub proof fn lemma_fields_bytes_append(a: Seq<(nat, FieldData)>, b: Seq<(nat, FieldData)>)
    ensures
        fields_bytes(a + b) == fields_bytes(a) + fields_bytes(b),
    decreases a.len(),
{
    if a.len() == 0 {
        assert(a + b =~= b);
        assert(fields_bytes(a) + fields_bytes(b) =~= fields_bytes(b));
    } else {
        lemma_fields_bytes_append(a.skip(1), b);
        assert((a + b).skip(1) =~= a.skip(1) + b);
        assert((a + b)[0] == a[0]);
        assert(fields_bytes(a + b) =~= fields_bytes(a) + fields_bytes(b));
    }
}

/// A field's contents as decoded, owned.
pub enum WireValue {
    Varint(u64),
    Fixed64(Vec<u8>),
    Delimited(Vec<u8>),
    Fixed32(Vec<u8>),
}

impl View for WireValue {
    type V = FieldData;

    open spec fn view(&self) -> FieldData {
        match self {
            WireValue::Varint(x) => FieldData::Varint(*x as nat),
            WireValue::Fixed64(b) => FieldData::Fixed64(b@),
            WireValue::Delimited(b) => FieldData::Delimited(b@),
            WireValue::Fixed32(b) => FieldData::Fixed32(b@),
        }
    }
}

/// One decoded field of a message.
pub struct Field {
    pub tag: u32,
    pub value: WireValue,
}

impl View for Field {
    type V = (nat, FieldData);

    open spec fn view(&self) -> (nat, FieldData) {
        (self.tag as nat, self.value@)
    }
}

pub open spec fn fields_view(fs: Seq<Field>) -> Seq<(nat, FieldData)> {
    fs.map_values(|f: Field| f@)
}

fn error_text(s: &str) -> (r: String)
    ensures
        r@ == s@,
{
    String::from_str(s)
}

/// Reads the field at the front of `b`, returning it with the number of bytes
/// it takes.
pub fn read_field(b: &[u8]) -> (r: Result<(Field, usize), String>)
    ensures
        match r {
            Ok((f, n)) => parse_field(b@) == Some((f@.0, f@.1, n as nat)),
            Err(_) => parse_field(b@) is None,
        },
{
    let (key, after_key) = match take_varint(b) {
        Ok(x) => x,
        Err(e) => return Err(e),
    };
    let n = b.len() - after_key;
    if key > 0xffff_ffff {
        return Err(error_text("invalid key value"));
    }
    let tag = key / 8;
    let wt = key % 8;
    if tag == 0 {
        return Err(error_text("invalid tag value: 0"));
    }
    let rest = slice_subrange(b, n, b.len());
    assert(rest@ =~= b@.skip(n as int));
    if wt == 0 {
        match take_varint(rest) {
            Ok((x, r2)) => {
                let m = rest.len() - r2;
                Ok((Field { tag: tag as u32, value: WireValue::Varint(x) }, n + m))
            },
            Err(e) => Err(e),
        }
    } else if wt == 1 {
        if rest.len() >= 8 {
            let data = slice_to_vec(slice_subrange(rest, 0, 8));
            assert(data@ =~= rest@.take(8));
            Ok((Field { tag: tag as u32, value: WireValue::Fixed64(data) }, n + 8))
        } else {
            Err(error_text("buffer underflow"))
        }
    } else if wt == 2 {
        match take_varint(rest) {
            Ok((len, r2)) => {
                let m = rest.len() - r2;
                if len <= r2 as u64 {
                    let end = m + len as usize;
                    let data = slice_to_vec(slice_subrange(rest, m, end));
                    Ok((Field { tag: tag as u32, value: WireValue::Delimited(data) }, n + end))
                } else {
                    Err(error_text("buffer underflow"))
                }
            },
            Err(e) => Err(e),
        }
    } else if wt == 5 {
        if rest.len() >= 4 {
            let data = slice_to_vec(slice_subrange(rest, 0, 4));
            assert(data@ =~= rest@.take(4));
            Ok((Field { tag: tag as u32, value: WireValue::Fixed32(data) }, n + 4))
        } else {
            Err(error_text("buffer underflow"))
        }
    } else {
        Err(error_text("invalid wire type value"))
    }
}

/// Reads the whole of `b` as a sequence of fields.
pub fn read_fields(b: &[u8]) -> (r: Result<Vec<Field>, String>)
    ensures
        match r {
            Ok(fs) => parse_fields(b@) == Some(fields_view(fs@)),
            Err(_) => parse_fields(b@) is None,
        },
{
    let mut out: Vec<Field> = Vec::new();
    let mut pos: usize = 0;
    assert(b@.skip(0) =~= b@);
    while pos < b.len()
        invariant
            pos <= b@.len(),
            parse_fields(b@) == match parse_fields(b@.skip(pos as int)) {
                Some(r) => Some(fields_view(out@) + r),
                None => None::<Seq<(nat, FieldData)>>,
            },
        decreases b@.len() - pos,
    {
        let ghost s = b@.skip(pos as int);
        let rest = slice_subrange(b, pos, b.len());
        assert(rest@ =~= s);
        proof {
            lemma_parse_field_len(s);
        }
        match read_field(rest) {
            Ok((f, n)) => {
                proof {
                    assert(s.skip(n as int) =~= b@.skip(pos + n));
                    let ghost old_view = fields_view(out@);
                    assert(fields_view(out@.push(f)) =~= old_view.push(f@));
                    match parse_fields(s.skip(n as int)) {
                        Some(r) => {
                            assert(old_view + (seq![f@] + r) =~= old_view.push(f@) + r);
                        },
                        None => {},
                    }
                }
                out.push(f);
                pos = pos + n;
            },
            Err(e) => {
                return Err(e);
            },
        }
    }
    assert(b@.skip(pos as int) =~= Seq::<u8>::empty());
    assert(fields_view(out@) + Seq::empty() =~= fields_view(out@));
    Ok(out)
}

/// Appends a field's key: its tag and wire type.
fn put_key(buf: &mut Vec<u8>, tag: u32, wt: u8)
    ensures
        final(buf)@ == old(buf)@ + varint_bytes(tag as nat * 8 + wt as nat),
{
    put_varint(tag as u64 * 8 + wt as u64, buf);
}

/// Appends a varint field.
pub fn put_varint_field(buf: &mut Vec<u8>, tag: u32, x: u64)
    ensures
        final(buf)@ == old(buf)@ + field_bytes((tag as nat, FieldData::Varint(x as nat))),
{
    put_key(buf, tag, 0);
    put_varint(x, buf);
    assert(final(buf)@ =~= old(buf)@ + field_bytes((tag as nat, FieldData::Varint(x as nat))));
}

/// Appends the bytes of `b` to `buf`.
pub fn put_bytes(buf: &mut Vec<u8>, b: &[u8])
    ensures
        final(buf)@ == old(buf)@ + b@,
{
    let ghost start = buf@;
    let mut i: usize = 0;
    while i < b.len()
        invariant
            i <= b@.len(),
            buf@ == start + b@.take(i as int),
        decreases b@.len() - i,
    {
        buf.push(b[i]);
        i = i + 1;
        assert(buf@ =~= start + b@.take(i as int));
    }
    assert(b@.take(i as int) =~= b@);
}

/// Appends a length-delimited field.
pub fn put_delimited_field(buf: &mut Vec<u8>, tag: u32, b: &[u8])
    ensures
        final(buf)@ == old(buf)@ + field_bytes((tag as nat, FieldData::Delimited(b@))),
{
    put_key(buf, tag, 2);
    put_varint(b.len() as u64, buf);
    put_bytes(buf, b);
    assert(final(buf)@ =~= old(buf)@ + field_bytes((tag as nat, FieldData::Delimited(b@))));
}

} // verus!
