use crate::wire::{
    Field, FieldData, WireValue, field_bytes, fields_bytes, fields_view, lemma_fields_bytes_append,
    parse_fields, put_delimited_field, put_varint_field, read_fields, field_wf, lemma_fields_round_trip,
    varint_bytes, lemma_varint_cap_zero, lemma_varint_round_trip,
};
use vstd::prelude::*;
use vstd::string::*;
use vstd::utf8::*;

verus! {

broadcast use {encode_utf8_valid_utf8, encode_utf8_decode_utf8};

/// Decoding a message folds its fields, first to last, into a value; a step
/// that gives `None` (a known field with the wrong wire type or bad contents)
/// fails the whole message. Fields of unknown tags leave the value as it is.
pub open spec fn fold_fields<S>(
    init: S,
    fs: Seq<(nat, FieldData)>,
    step: spec_fn(S, (nat, FieldData)) -> Option<S>,
) -> Option<S>
    decreases fs.len(),
{
    if fs.len() == 0 {
        Some(init)
    } else {
        match fold_fields(init, fs.drop_last(), step) {
            Some(acc) => step(acc, fs.last()),
            None => None,
        }
    }
}

/// Decodes the bytes `b` into a value, starting from `init`.
pub open spec fn decode_with<S>(
    init: S,
    b: Seq<u8>,
    step: spec_fn(S, (nat, FieldData)) -> Option<S>,
) -> Option<S> {
    match parse_fields(b) {
        Some(fs) => fold_fields(init, fs, step),
        None => None,
    }
}

pub proof fn lemma_fold_take<S>(
    init: S,
    fs: Seq<(nat, FieldData)>,
    i: int,
    step: spec_fn(S, (nat, FieldData)) -> Option<S>,
)
    requires
        0 <= i < fs.len(),
    ensures
        fold_fields(init, fs.take(i + 1), step) == match fold_fields(init, fs.take(i), step) {
            Some(acc) => step(acc, fs[i]),
            None => None,
        },
{
    assert(fs.take(i + 1).drop_last() =~= fs.take(i));
}

pub proof fn lemma_fold_stuck<S>(
    init: S,
    fs: Seq<(nat, FieldData)>,
    i: int,
    step: spec_fn(S, (nat, FieldData)) -> Option<S>,
)
    requires
        0 <= i <= fs.len(),
        fold_fields(init, fs.take(i), step) is None,
    ensures
        fold_fields(init, fs, step) is None,
    decreases fs.len() - i,
{
    if i == fs.len() {
        assert(fs.take(i) =~= fs);
    } else {
        lemma_fold_take(init, fs, i, step);
        lemma_fold_stuck(init, fs, i + 1, step);
    }
}

pub proof fn lemma_fold_push<S>(
    init: S,
    fs: Seq<(nat, FieldData)>,
    f: (nat, FieldData),
    step: spec_fn(S, (nat, FieldData)) -> Option<S>,
)
    ensures
        fold_fields(init, fs.push(f), step) == match fold_fields(init, fs, step) {
            Some(acc) => step(acc, f),
            None => None,
        },
{
    assert(fs.push(f).drop_last() =~= fs);
}

/// The text that a field carries: length-delimited, valid UTF-8.
pub open spec fn text_of(d: FieldData) -> Option<Seq<char>> {
    match d {
        FieldData::Delimited(b) => if valid_utf8(b) {
            Some(decode_utf8(b))
        } else {
            None
        },
        _ => None,
    }
}

/// The flag that a field carries: a varint, true when not zero.
pub open spec fn flag_of(d: FieldData) -> Option<bool> {
    match d {
        FieldData::Varint(x) => Some(x != 0),
        _ => None,
    }
}

/// Relies on String::from_utf8: it succeeds exactly on valid UTF-8, and the
/// string then holds those very bytes.
#[verifier::external_body]
fn utf8_to_string(b: Vec<u8>) -> (r: Option<String>)
    ensures
        match r {
            Some(s) => encode_utf8(s@) == b@,
            None => !valid_utf8(b@),
        },
{
    match String::from_utf8(b) {
        Ok(s) => Some(s),
        Err(_) => None,
    }
}

fn text_value(v: &WireValue) -> (r: Option<String>)
    ensures
        match r {
            Some(s) => text_of(v@) == Some(s@),
            None => text_of(v@) is None,
        },
{
    match v {
        WireValue::Delimited(b) => {
            let r = utf8_to_string(b.clone());
            match &r {
                Some(s) => {
                    assert(decode_utf8(encode_utf8(s@)) == s@);
                },
                None => {},
            }
            r
        },
        _ => None,
    }
}

fn flag_value(v: &WireValue) -> (r: Option<bool>)
    ensures
        r == flag_of(v@),
{
    match v {
        WireValue::Varint(x) => Some(*x != 0),
        _ => None,
    }
}

/// A key and a value as the wire carries them.
pub type PairView = (Seq<char>, Seq<char>);

/// A key-value pair message: the key in field 1, the value in field 2.
pub struct KeyValuePair {
    pub key: String,
    pub value: String,
}

impl View for KeyValuePair {
    type V = PairView;

    open spec fn view(&self) -> PairView {
        (self.key@, self.value@)
    }
}

pub open spec fn empty_pair() -> PairView {
    (Seq::empty(), Seq::empty())
}

pub open spec fn opt_pair_view(o: Option<KeyValuePair>) -> Option<PairView> {
    match o {
        Some(p) => Some(p@),
        None => None,
    }
}

pub open spec fn pairs_view(ps: Seq<KeyValuePair>) -> Seq<PairView> {
    ps.map_values(|p: KeyValuePair| p@)
}

pub open spec fn pair_step(p: PairView, f: (nat, FieldData)) -> Option<PairView> {
    if f.0 == 1 {
        match text_of(f.1) {
            Some(t) => Some((t, p.1)),
            None => None,
        }
    } else if f.0 == 2 {
        match text_of(f.1) {
            Some(t) => Some((p.0, t)),
            None => None,
        }
    } else {
        Some(p)
    }
}

pub open spec fn pair_stepper() -> spec_fn(PairView, (nat, FieldData)) -> Option<PairView> {
    |p: PairView, f: (nat, FieldData)| pair_step(p, f)
}

/// Decodes the bytes of a pair message over the pair `p` (a repeated field
/// overwrites).
pub open spec fn merge_pair(p: PairView, b: Seq<u8>) -> Option<PairView> {
    decode_with(p, b, pair_stepper())
}

fn empty_string() -> (r: String)
    ensures
        r@ == Seq::<char>::empty(),
{
    String::new()
}

fn apply_pair_field(acc: KeyValuePair, f: &Field) -> (r: Option<KeyValuePair>)
    ensures
        opt_pair_view(r) == pair_step(acc@, f@),
{
    let mut acc = acc;
    if f.tag == 1 {
        match text_value(&f.value) {
            Some(t) => {
                acc.key = t;
                Some(acc)
            },
            None => None,
        }
    } else if f.tag == 2 {
        match text_value(&f.value) {
            Some(t) => {
                acc.value = t;
                Some(acc)
            },
            None => None,
        }
    } else {
        Some(acc)
    }
}

/// Decodes a pair message over `p`.
pub fn merge_pair_bytes(p: KeyValuePair, b: &[u8]) -> (r: Result<KeyValuePair, String>)
    ensures
        match r {
            Ok(q) => merge_pair(p@, b@) == Some(q@),
            Err(_) => merge_pair(p@, b@) is None,
        },
{
    let fs = match read_fields(b) {
        Ok(fs) => fs,
        Err(e) => return Err(e),
    };
    let ghost fv = fields_view(fs@);
    let ghost init = p@;
    let mut acc = p;
    let mut i: usize = 0;
    while i < fs.len()
        invariant
            i <= fs@.len(),
            fv == fields_view(fs@),
            parse_fields(b@) == Some(fv),
            init == p@,
            fold_fields(init, fv.take(i as int), pair_stepper()) == Some(acc@),
        decreases fs@.len() - i,
    {
        proof {
            lemma_fold_take(init, fv, i as int, pair_stepper());
            assert(fv[i as int] == fs@[i as int]@);
        }
        match apply_pair_field(acc, &fs[i]) {
            Some(next) => {
                acc = next;
            },
            None => {
                proof {
                    lemma_fold_stuck(init, fv, i + 1, pair_stepper());
                }
                return Err(error_message("invalid key-value pair"));
            },
        }
        i = i + 1;
    }
    assert(fv.take(i as int) =~= fv);
    Ok(acc)
}

fn error_message(s: &str) -> (r: String)
    ensures
        r@ == s@,
{
    String::from_str(s)
}

pub open spec fn text_msg_step(t: Seq<char>, f: (nat, FieldData)) -> Option<Seq<char>> {
    if f.0 == 1 {
        text_of(f.1)
    } else {
        Some(t)
    }
}

pub open spec fn text_msg_stepper() -> spec_fn(Seq<char>, (nat, FieldData)) -> Option<Seq<char>> {
    |t: Seq<char>, f: (nat, FieldData)| text_msg_step(t, f)
}

/// A message of one text field, tag 1 (a ping, a key, a backup id).
pub open spec fn decode_text_msg(b: Seq<u8>) -> Option<Seq<char>> {
    decode_with(Seq::empty(), b, text_msg_stepper())
}

fn apply_text_field(acc: String, f: &Field) -> (r: Option<String>)
    ensures
        match r {
            Some(t) => text_msg_step(acc@, f@) == Some(t@),
            None => text_msg_step(acc@, f@) is None,
        },
{
    if f.tag == 1 {
        text_value(&f.value)
    } else {
        Some(acc)
    }
}

pub open spec fn flag_msg_step(x: bool, f: (nat, FieldData)) -> Option<bool> {
    if f.0 == 1 {
        flag_of(f.1)
    } else {
        Some(x)
    }
}

pub open spec fn flag_msg_stepper() -> spec_fn(bool, (nat, FieldData)) -> Option<bool> {
    |x: bool, f: (nat, FieldData)| flag_msg_step(x, f)
}

/// A message of one flag, tag 1 (the `success` of most responses).
pub open spec fn decode_flag_msg(b: Seq<u8>) -> Option<bool> {
    decode_with(false, b, flag_msg_stepper())
}

fn apply_flag_field(acc: bool, f: &Field) -> (r: Option<bool>)
    ensures
        r == flag_msg_step(acc, f@),
{
    if f.tag == 1 {
        flag_value(&f.value)
    } else {
        Some(acc)
    }
}

/// A nested pair field: decoded over the pair already there, if any.
pub open spec fn nested_pair(acc: Option<PairView>, d: FieldData) -> Option<Option<PairView>> {
    match d {
        FieldData::Delimited(b) => match merge_pair(
            match acc {
                Some(p) => p,
                None => empty_pair(),
            },
            b,
        ) {
            Some(q) => Some(Some(q)),
            None => None,
        },
        _ => None,
    }
}

fn nested_pair_value(acc: Option<KeyValuePair>, v: &WireValue) -> (r: Option<Option<KeyValuePair>>)
    ensures
        match r {
            Some(q) => nested_pair(opt_pair_view(acc), v@) == Some(opt_pair_view(q)),
            None => nested_pair(opt_pair_view(acc), v@) is None,
        },
{
    match v {
        WireValue::Delimited(b) => {
            let start = match acc {
                Some(p) => p,
                None => KeyValuePair { key: empty_string(), value: empty_string() },
            };
            match merge_pair_bytes(start, b.as_slice()) {
                Ok(q) => Some(Some(q)),
                Err(_) => None,
            }
        },
        _ => None,
    }
}

pub open spec fn pair_msg_step(acc: Option<PairView>, f: (nat, FieldData)) -> Option<
    Option<PairView>,
> {
    if f.0 == 1 {
        nested_pair(acc, f.1)
    } else {
        Some(acc)
    }
}

pub open spec fn pair_msg_stepper() -> spec_fn(Option<PairView>, (nat, FieldData)) -> Option<
    Option<PairView>,
> {
    |acc: Option<PairView>, f: (nat, FieldData)| pair_msg_step(acc, f)
}

/// A message of one optional pair, tag 1 (create and update requests).
pub open spec fn decode_pair_msg(b: Seq<u8>) -> Option<Option<PairView>> {
    decode_with(None, b, pair_msg_stepper())
}

fn apply_pair_msg_field(acc: Option<KeyValuePair>, f: &Field) -> (r: Option<Option<KeyValuePair>>)
    ensures
        match r {
            Some(q) => pair_msg_step(opt_pair_view(acc), f@) == Some(opt_pair_view(q)),
            None => pair_msg_step(opt_pair_view(acc), f@) is None,
        },
{
    if f.tag == 1 {
        nested_pair_value(acc, &f.value)
    } else {
        Some(acc)
    }
}

pub open spec fn read_resp_step(acc: (bool, Option<PairView>), f: (nat, FieldData)) -> Option<
    (bool, Option<PairView>),
> {
    if f.0 == 1 {
        match flag_of(f.1) {
            Some(x) => Some((x, acc.1)),
            None => None,
        }
    } else if f.0 == 2 {
        match nested_pair(acc.1, f.1) {
            Some(q) => Some((acc.0, q)),
            None => None,
        }
    } else {
        Some(acc)
    }
}

pub open spec fn read_resp_stepper() -> spec_fn(
    (bool, Option<PairView>),
    (nat, FieldData),
) -> Option<(bool, Option<PairView>)> {
    |acc: (bool, Option<PairView>), f: (nat, FieldData)| read_resp_step(acc, f)
}

/// A read response: `success` in field 1, the optional pair in field 2.
pub open spec fn decode_read_resp(b: Seq<u8>) -> Option<(bool, Option<PairView>)> {
    decode_with((false, None), b, read_resp_stepper())
}

fn apply_read_resp_field(acc: (bool, Option<KeyValuePair>), f: &Field) -> (r: Option<
    (bool, Option<KeyValuePair>),
>)
    ensures
        match r {
            Some(q) => read_resp_step((acc.0, opt_pair_view(acc.1)), f@) == Some(
                (q.0, opt_pair_view(q.1)),
            ),
            None => read_resp_step((acc.0, opt_pair_view(acc.1)), f@) is None,
        },
{
    let (x, p) = acc;
    if f.tag == 1 {
        match flag_value(&f.value) {
            Some(y) => Some((y, p)),
            None => None,
        }
    } else if f.tag == 2 {
        match nested_pair_value(p, &f.value) {
            Some(q) => Some((x, q)),
            None => None,
        }
    } else {
        Some((x, p))
    }
}

pub open spec fn envelope_step(acc: (nat, Seq<u8>), f: (nat, FieldData)) -> Option<(nat, Seq<u8>)> {
    if f.0 == 1 {
        match f.1 {
            FieldData::Varint(x) => Some((x, acc.1)),
            _ => None,
        }
    } else if f.0 == 2 {
        match f.1 {
            FieldData::Delimited(b) => Some((acc.0, b)),
            _ => None,
        }
    } else {
        Some(acc)
    }
}

pub open spec fn envelope_stepper() -> spec_fn((nat, Seq<u8>), (nat, FieldData)) -> Option<
    (nat, Seq<u8>),
> {
    |acc: (nat, Seq<u8>), f: (nat, FieldData)| envelope_step(acc, f)
}

/// An envelope: the operation code in field 1, the payload in field 2.
pub open spec fn decode_envelope(b: Seq<u8>) -> Option<(nat, Seq<u8>)> {
    decode_with((0, Seq::empty()), b, envelope_stepper())
}

fn apply_envelope_field(acc: (u64, Vec<u8>), f: &Field) -> (r: Option<(u64, Vec<u8>)>)
    ensures
        match r {
            Some(q) => envelope_step((acc.0 as nat, acc.1@), f@) == Some((q.0 as nat, q.1@)),
            None => envelope_step((acc.0 as nat, acc.1@), f@) is None,
        },
{
    let (code, payload) = acc;
    if f.tag == 1 {
        match &f.value {
            WireValue::Varint(x) => Some((*x, payload)),
            _ => None,
        }
    } else if f.tag == 2 {
        match &f.value {
            WireValue::Delimited(b) => Some((code, b.clone())),
            _ => None,
        }
    } else {
        Some((code, payload))
    }
}

pub open spec fn store_msg_step(acc: (Seq<char>, Seq<PairView>), f: (nat, FieldData)) -> Option<
    (Seq<char>, Seq<PairView>),
> {
    if f.0 == 1 {
        match text_of(f.1) {
            Some(t) => Some((t, acc.1)),
            None => None,
        }
    } else if f.0 == 2 {
        match f.1 {
            FieldData::Delimited(b) => match merge_pair(empty_pair(), b) {
                Some(p) => Some((acc.0, acc.1.push(p))),
                None => None,
            },
            _ => None,
        }
    } else {
        Some(acc)
    }
}

pub open spec fn store_msg_stepper() -> spec_fn(
    (Seq<char>, Seq<PairView>),
    (nat, FieldData),
) -> Option<(Seq<char>, Seq<PairView>)> {
    |acc: (Seq<char>, Seq<PairView>), f: (nat, FieldData)| store_msg_step(acc, f)
}

/// A whole store: its name in field 1, each pair in a field 2, in order.
pub open spec fn decode_store_msg(b: Seq<u8>) -> Option<(Seq<char>, Seq<PairView>)> {
    decode_with((Seq::empty(), Seq::empty()), b, store_msg_stepper())
}

fn apply_store_field(acc: (String, Vec<KeyValuePair>), f: &Field) -> (r: Option<
    (String, Vec<KeyValuePair>),
>)
    ensures
        match r {
            Some(q) => store_msg_step((acc.0@, pairs_view(acc.1@)), f@) == Some(
                (q.0@, pairs_view(q.1@)),
            ),
            None => store_msg_step((acc.0@, pairs_view(acc.1@)), f@) is None,
        },
{
    let (name, mut pairs) = acc;
    if f.tag == 1 {
        match text_value(&f.value) {
            Some(t) => Some((t, pairs)),
            None => None,
        }
    } else if f.tag == 2 {
        match &f.value {
            WireValue::Delimited(b) => {
                let start = KeyValuePair { key: empty_string(), value: empty_string() };
                match merge_pair_bytes(start, b.as_slice()) {
                    Ok(p) => {
                        let ghost before = pairs@;
                        pairs.push(p);
                        assert(pairs_view(pairs@) =~= pairs_view(before).push(p@));
                        Some((name, pairs))
                    },
                    Err(_) => None,
                }
            },
            _ => None,
        }
    } else {
        Some((name, pairs))
    }
}

/// Reads a message of one text field, tag 1.
pub fn read_text_msg(b: &[u8]) -> (r: Result<String, String>)
    ensures
        match r {
            Ok(m) => decode_text_msg(b@) == Some(m@),
            Err(_) => decode_text_msg(b@) is None,
        },
{
    let fs = match read_fields(b) {
        Ok(fs) => fs,
        Err(e) => return Err(e),
    };
    let ghost fv = fields_view(fs@);
    let mut acc: String = empty_string();
    let mut i: usize = 0;
    while i < fs.len()
        invariant
            i <= fs@.len(),
            fv == fields_view(fs@),
            parse_fields(b@) == Some(fv),
            fold_fields(Seq::<char>::empty(), fv.take(i as int), text_msg_stepper()) == Some(acc@),
        decreases fs@.len() - i,
    {
        proof {
            lemma_fold_take(Seq::<char>::empty(), fv, i as int, text_msg_stepper());
            assert(fv[i as int] == fs@[i as int]@);
        }
        match apply_text_field(acc, &fs[i]) {
            Some(next) => {
                acc = next;
            },
            None => {
                proof {
                    lemma_fold_stuck(Seq::<char>::empty(), fv, i + 1, text_msg_stepper());
                }
                return Err(error_message("invalid text message"));
            },
        }
        i = i + 1;
    }
    assert(fv.take(i as int) =~= fv);
    Ok(acc)
}

/// Reads a message of one flag, tag 1.
pub fn read_flag_msg(b: &[u8]) -> (r: Result<bool, String>)
    ensures
        match r {
            Ok(m) => decode_flag_msg(b@) == Some(m),
            Err(_) => decode_flag_msg(b@) is None,
        },
{
    let fs = match read_fields(b) {
        Ok(fs) => fs,
        Err(e) => return Err(e),
    };
    let ghost fv = fields_view(fs@);
    let mut acc: bool = false;
    let mut i: usize = 0;
    while i < fs.len()
        invariant
            i <= fs@.len(),
            fv == fields_view(fs@),
            parse_fields(b@) == Some(fv),
            fold_fields(false, fv.take(i as int), flag_msg_stepper()) == Some(acc),
        decreases fs@.len() - i,
    {
        proof {
            lemma_fold_take(false, fv, i as int, flag_msg_stepper());
            assert(fv[i as int] == fs@[i as int]@);
        }
        match apply_flag_field(acc, &fs[i]) {
            Some(next) => {
                acc = next;
            },
            None => {
                proof {
                    lemma_fold_stuck(false, fv, i + 1, flag_msg_stepper());
                }
                return Err(error_message("invalid flag message"));
            },
        }
        i = i + 1;
    }
    assert(fv.take(i as int) =~= fv);
    Ok(acc)
}

/// Reads a message of one optional pair, tag 1.
pub fn read_pair_msg(b: &[u8]) -> (r: Result<Option<KeyValuePair>, String>)
    ensures
        match r {
            Ok(m) => decode_pair_msg(b@) == Some(opt_pair_view(m)),
            Err(_) => decode_pair_msg(b@) is None,
        },
{
    let fs = match read_fields(b) {
        Ok(fs) => fs,
        Err(e) => return Err(e),
    };
    let ghost fv = fields_view(fs@);
    let mut acc: Option<KeyValuePair> = None;
    let mut i: usize = 0;
    while i < fs.len()
        invariant
            i <= fs@.len(),
            fv == fields_view(fs@),
            parse_fields(b@) == Some(fv),
            fold_fields(None::<PairView>, fv.take(i as int), pair_msg_stepper()) == Some(opt_pair_view(acc)),
        decreases fs@.len() - i,
    {
        proof {
            lemma_fold_take(None::<PairView>, fv, i as int, pair_msg_stepper());
            assert(fv[i as int] == fs@[i as int]@);
        }
        match apply_pair_msg_field(acc, &fs[i]) {
            Some(next) => {
                acc = next;
            },
            None => {
                proof {
                    lemma_fold_stuck(None::<PairView>, fv, i + 1, pair_msg_stepper());
                }
                return Err(error_message("invalid pair message"));
            },
        }
        i = i + 1;
    }
    assert(fv.take(i as int) =~= fv);
    Ok(acc)
}

/// Reads a read response.
pub fn read_read_resp(b: &[u8]) -> (r: Result<(bool, Option<KeyValuePair>), String>)
    ensures
        match r {
            Ok(m) => decode_read_resp(b@) == Some((m.0, opt_pair_view(m.1))),
            Err(_) => decode_read_resp(b@) is None,
        },
{
    let fs = match read_fields(b) {
        Ok(fs) => fs,
        Err(e) => return Err(e),
    };
    let ghost fv = fields_view(fs@);
    let mut acc: (bool, Option<KeyValuePair>) = (false, None);
    let mut i: usize = 0;
    while i < fs.len()
        invariant
            i <= fs@.len(),
            fv == fields_view(fs@),
            parse_fields(b@) == Some(fv),
            fold_fields((false, None::<PairView>), fv.take(i as int), read_resp_stepper()) == Some((acc.0, opt_pair_view(acc.1))),
        decreases fs@.len() - i,
    {
        proof {
            lemma_fold_take((false, None::<PairView>), fv, i as int, read_resp_stepper());
            assert(fv[i as int] == fs@[i as int]@);
        }
        match apply_read_resp_field(acc, &fs[i]) {
            Some(next) => {
                acc = next;
            },
            None => {
                proof {
                    lemma_fold_stuck((false, None::<PairView>), fv, i + 1, read_resp_stepper());
                }
                return Err(error_message("invalid read response"));
            },
        }
        i = i + 1;
    }
    assert(fv.take(i as int) =~= fv);
    Ok(acc)
}

/// Reads an envelope: operation code and payload.
pub fn read_envelope(b: &[u8]) -> (r: Result<(u64, Vec<u8>), String>)
    ensures
        match r {
            Ok(m) => decode_envelope(b@) == Some((m.0 as nat, m.1@)),
            Err(_) => decode_envelope(b@) is None,
        },
{
    let fs = match read_fields(b) {
        Ok(fs) => fs,
        Err(e) => return Err(e),
    };
    let ghost fv = fields_view(fs@);
    let mut acc: (u64, Vec<u8>) = (0, Vec::new());
    let mut i: usize = 0;
    while i < fs.len()
        invariant
            i <= fs@.len(),
            fv == fields_view(fs@),
            parse_fields(b@) == Some(fv),
            fold_fields((0nat, Seq::<u8>::empty()), fv.take(i as int), envelope_stepper()) == Some((acc.0 as nat, acc.1@)),
        decreases fs@.len() - i,
    {
        proof {
            lemma_fold_take((0nat, Seq::<u8>::empty()), fv, i as int, envelope_stepper());
            assert(fv[i as int] == fs@[i as int]@);
        }
        match apply_envelope_field(acc, &fs[i]) {
            Some(next) => {
                acc = next;
            },
            None => {
                proof {
                    lemma_fold_stuck((0nat, Seq::<u8>::empty()), fv, i + 1, envelope_stepper());
                }
                return Err(error_message("invalid envelope"));
            },
        }
        i = i + 1;
    }
    assert(fv.take(i as int) =~= fv);
    Ok(acc)
}

/// Reads a whole store: name and pairs in order.
pub fn read_store_msg(b: &[u8]) -> (r: Result<(String, Vec<KeyValuePair>), String>)
    ensures
        match r {
            Ok(m) => decode_store_msg(b@) == Some((m.0@, pairs_view(m.1@))),
            Err(_) => decode_store_msg(b@) is None,
        },
{
    let fs = match read_fields(b) {
        Ok(fs) => fs,
        Err(e) => return Err(e),
    };
    let ghost fv = fields_view(fs@);
    let mut acc: (String, Vec<KeyValuePair>) = (empty_string(), Vec::new());
    let mut i: usize = 0;
    while i < fs.len()
        invariant
            i <= fs@.len(),
            fv == fields_view(fs@),
            parse_fields(b@) == Some(fv),
            fold_fields((Seq::<char>::empty(), Seq::<PairView>::empty()), fv.take(i as int), store_msg_stepper()) == Some((acc.0@, pairs_view(acc.1@))),
        decreases fs@.len() - i,
    {
        proof {
            lemma_fold_take((Seq::<char>::empty(), Seq::<PairView>::empty()), fv, i as int, store_msg_stepper());
            assert(fv[i as int] == fs@[i as int]@);
        }
        match apply_store_field(acc, &fs[i]) {
            Some(next) => {
                acc = next;
            },
            None => {
                proof {
                    lemma_fold_stuck((Seq::<char>::empty(), Seq::<PairView>::empty()), fv, i + 1, store_msg_stepper());
                }
                return Err(error_message("invalid store"));
            },
        }
        i = i + 1;
    }
    assert(fv.take(i as int) =~= fv);
    Ok(acc)
}

/// A text field; proto3 leaves out an empty one.
pub open spec fn text_fields(tag: nat, t: Seq<char>) -> Seq<(nat, FieldData)> {
    if encode_utf8(t).len() == 0 {
        Seq::empty()
    } else {
        seq![(tag, FieldData::Delimited(encode_utf8(t)))]
    }
}

/// A flag field; left out when false.
pub open spec fn flag_fields(tag: nat, x: bool) -> Seq<(nat, FieldData)> {
    if x {
        seq![(tag, FieldData::Varint(1))]
    } else {
        Seq::empty()
    }
}

/// An integer field; left out when zero.
pub open spec fn code_fields(tag: nat, x: nat) -> Seq<(nat, FieldData)> {
    if x == 0 {
        Seq::empty()
    } else {
        seq![(tag, FieldData::Varint(x))]
    }
}

/// A bytes field; left out when empty.
pub open spec fn payload_fields(tag: nat, b: Seq<u8>) -> Seq<(nat, FieldData)> {
    if b.len() == 0 {
        Seq::empty()
    } else {
        seq![(tag, FieldData::Delimited(b))]
    }
}

pub open spec fn pair_fields(p: PairView) -> Seq<(nat, FieldData)> {
    text_fields(1, p.0) + text_fields(2, p.1)
}

/// The encoding of a pair message.
pub open spec fn pair_bytes(p: PairView) -> Seq<u8> {
    fields_bytes(pair_fields(p))
}

/// A nested pair field; left out when there is no pair.
pub open spec fn opt_pair_fields(tag: nat, o: Option<PairView>) -> Seq<(nat, FieldData)> {
    match o {
        Some(p) => seq![(tag, FieldData::Delimited(pair_bytes(p)))],
        None => Seq::empty(),
    }
}

pub open spec fn text_msg_bytes(t: Seq<char>) -> Seq<u8> {
    fields_bytes(text_fields(1, t))
}

pub open spec fn flag_msg_bytes(x: bool) -> Seq<u8> {
    fields_bytes(flag_fields(1, x))
}

pub open spec fn pair_msg_bytes(o: Option<PairView>) -> Seq<u8> {
    fields_bytes(opt_pair_fields(1, o))
}

pub open spec fn read_resp_bytes(x: bool, o: Option<PairView>) -> Seq<u8> {
    fields_bytes(flag_fields(1, x) + opt_pair_fields(2, o))
}

pub open spec fn envelope_bytes(code: nat, payload: Seq<u8>) -> Seq<u8> {
    fields_bytes(code_fields(1, code) + payload_fields(2, payload))
}

pub open spec fn pair_entries(tag: nat, ps: Seq<PairView>) -> Seq<(nat, FieldData)> {
    Seq::new(ps.len(), |i: int| (tag, FieldData::Delimited(pair_bytes(ps[i]))))
}

pub open spec fn store_fields(name: Seq<char>, ps: Seq<PairView>) -> Seq<(nat, FieldData)> {
    text_fields(1, name) + pair_entries(2, ps)
}

/// The encoding of a whole store: name, then each pair in order.
pub open spec fn store_msg_bytes(name: Seq<char>, ps: Seq<PairView>) -> Seq<u8> {
    fields_bytes(store_fields(name, ps))
}

pub proof fn lemma_fields_bytes_one(f: (nat, FieldData))
    ensures
        fields_bytes(seq![f]) == field_bytes(f),
        fields_bytes(Seq::<(nat, FieldData)>::empty()) == Seq::<u8>::empty(),
{
    let e = Seq::<(nat, FieldData)>::empty();
    assert(fields_bytes(e) == Seq::<u8>::empty());
    assert(seq![f].skip(1) =~= e);
    assert(seq![f][0] == f);
    assert(fields_bytes(seq![f]) == field_bytes(f) + fields_bytes(e));
    assert(field_bytes(f) + Seq::<u8>::empty() =~= field_bytes(f));
}

/// Appends `fs` to what `buf` held: the step that each encoder takes.
proof fn lemma_extend(before: Seq<u8>, done: Seq<(nat, FieldData)>, fs: Seq<(nat, FieldData)>)
    ensures
        before + fields_bytes(done) + fields_bytes(fs) == before + fields_bytes(done + fs),
{
    lemma_fields_bytes_append(done, fs);
    assert(before + fields_bytes(done) + fields_bytes(fs) =~= before + (fields_bytes(done)
        + fields_bytes(fs)));
}

fn put_text(buf: &mut Vec<u8>, tag: u32, t: &str)
    ensures
        final(buf)@ == old(buf)@ + fields_bytes(text_fields(tag as nat, t@)),
{
    proof {
        lemma_fields_bytes_one((tag as nat, FieldData::Delimited(encode_utf8(t@))));
    }
    let b = t.as_bytes();
    assert(b@ == encode_utf8(t@));
    if b.len() > 0 {
        put_delimited_field(buf, tag, b);
    } else {
        assert(encode_utf8(t@).len() == 0);
        assert(buf@ =~= buf@ + Seq::<u8>::empty());
    }
}

fn put_flag(buf: &mut Vec<u8>, tag: u32, x: bool)
    ensures
        final(buf)@ == old(buf)@ + fields_bytes(flag_fields(tag as nat, x)),
{
    proof {
        lemma_fields_bytes_one((tag as nat, FieldData::Varint(1)));
    }
    if x {
        put_varint_field(buf, tag, 1);
    } else {
        assert(buf@ =~= buf@ + Seq::<u8>::empty());
    }
}

fn put_code(buf: &mut Vec<u8>, tag: u32, x: u64)
    ensures
        final(buf)@ == old(buf)@ + fields_bytes(code_fields(tag as nat, x as nat)),
{
    proof {
        lemma_fields_bytes_one((tag as nat, FieldData::Varint(x as nat)));
    }
    if x != 0 {
        put_varint_field(buf, tag, x);
    } else {
        assert(buf@ =~= buf@ + Seq::<u8>::empty());
    }
}

fn put_payload(buf: &mut Vec<u8>, tag: u32, b: &[u8])
    ensures
        final(buf)@ == old(buf)@ + fields_bytes(payload_fields(tag as nat, b@)),
{
    proof {
        lemma_fields_bytes_one((tag as nat, FieldData::Delimited(b@)));
    }
    if b.len() > 0 {
        put_delimited_field(buf, tag, b);
    } else {
        assert(buf@ =~= buf@ + Seq::<u8>::empty());
    }
}

/// Encodes a pair message.
pub fn encode_pair(p: &KeyValuePair) -> (r: Vec<u8>)
    ensures
        r@ == pair_bytes(p@),
{
    let mut buf: Vec<u8> = Vec::new();
    put_text(&mut buf, 1, p.key.as_str());
    put_text(&mut buf, 2, p.value.as_str());
    proof {
        lemma_extend(Seq::empty(), text_fields(1, p@.0), text_fields(2, p@.1));
        assert(buf@ =~= pair_bytes(p@));
    }
    buf
}

fn put_opt_pair(buf: &mut Vec<u8>, tag: u32, o: &Option<KeyValuePair>)
    ensures
        final(buf)@ == old(buf)@ + fields_bytes(opt_pair_fields(tag as nat, opt_pair_view(*o))),
{
    match o {
        Some(p) => {
            let b = encode_pair(p);
            proof {
                lemma_fields_bytes_one((tag as nat, FieldData::Delimited(b@)));
            }
            put_delimited_field(buf, tag, b.as_slice());
        },
        None => {
            proof {
                lemma_fields_bytes_one((tag as nat, FieldData::Varint(0)));
            }
            assert(buf@ =~= buf@ + Seq::<u8>::empty());
        },
    }
}

/// Encodes a message of one text field, tag 1.
pub fn encode_text_msg(t: &str) -> (r: Vec<u8>)
    ensures
        r@ == text_msg_bytes(t@),
{
    let mut buf: Vec<u8> = Vec::new();
    put_text(&mut buf, 1, t);
    assert(buf@ =~= text_msg_bytes(t@));
    buf
}

/// Encodes a message of one flag, tag 1.
pub fn encode_flag_msg(x: bool) -> (r: Vec<u8>)
    ensures
        r@ == flag_msg_bytes(x),
{
    let mut buf: Vec<u8> = Vec::new();
    put_flag(&mut buf, 1, x);
    assert(buf@ =~= flag_msg_bytes(x));
    buf
}

/// Encodes a message of one optional pair, tag 1.
pub fn encode_pair_msg(o: &Option<KeyValuePair>) -> (r: Vec<u8>)
    ensures
        r@ == pair_msg_bytes(opt_pair_view(*o)),
{
    let mut buf: Vec<u8> = Vec::new();
    put_opt_pair(&mut buf, 1, o);
    assert(buf@ =~= pair_msg_bytes(opt_pair_view(*o)));
    buf
}

/// Encodes a read response.
pub fn encode_read_resp(x: bool, o: &Option<KeyValuePair>) -> (r: Vec<u8>)
    ensures
        r@ == read_resp_bytes(x, opt_pair_view(*o)),
{
    let mut buf: Vec<u8> = Vec::new();
    put_flag(&mut buf, 1, x);
    put_opt_pair(&mut buf, 2, o);
    proof {
        lemma_extend(Seq::empty(), flag_fields(1, x), opt_pair_fields(2, opt_pair_view(*o)));
        assert(buf@ =~= read_resp_bytes(x, opt_pair_view(*o)));
    }
    buf
}

/// Encodes an envelope.
pub fn encode_envelope(code: u64, payload: &[u8]) -> (r: Vec<u8>)
    ensures
        r@ == envelope_bytes(code as nat, payload@),
{
    let mut buf: Vec<u8> = Vec::new();
    put_code(&mut buf, 1, code);
    put_payload(&mut buf, 2, payload);
    proof {
        lemma_extend(Seq::empty(), code_fields(1, code as nat), payload_fields(2, payload@));
        assert(buf@ =~= envelope_bytes(code as nat, payload@));
    }
    buf
}

/// Encodes a whole store: name, then each pair in order.
pub fn encode_store_msg(name: &str, pairs: &Vec<KeyValuePair>) -> (r: Vec<u8>)
    ensures
        r@ == store_msg_bytes(name@, pairs_view(pairs@)),
{
    let mut buf: Vec<u8> = Vec::new();
    put_text(&mut buf, 1, name);
    let ghost ps = pairs_view(pairs@);
    proof {
        assert(pair_entries(2, ps.take(0)) =~= Seq::<(nat, FieldData)>::empty());
        assert(text_fields(1, name@) + pair_entries(2, ps.take(0)) =~= text_fields(1, name@));
        assert(buf@ =~= fields_bytes(text_fields(1, name@)));
    }
    let mut i: usize = 0;
    while i < pairs.len()
        invariant
            i <= pairs@.len(),
            ps == pairs_view(pairs@),
            buf@ == fields_bytes(text_fields(1, name@) + pair_entries(2, ps.take(i as int))),
        decreases pairs@.len() - i,
    {
        let b = encode_pair(&pairs[i]);
        let ghost f = (2nat, FieldData::Delimited(b@));
        let ghost done = text_fields(1, name@) + pair_entries(2, ps.take(i as int));
        proof {
            lemma_fields_bytes_one(f);
        }
        put_delimited_field(&mut buf, 2, b.as_slice());
        proof {
            lemma_extend(Seq::empty(), done, seq![f]);
            assert(ps[i as int] == pairs@[i as int]@);
            assert(pair_entries(2, ps.take(i + 1)) =~= pair_entries(2, ps.take(i as int)).push(f));
            assert(done + seq![f] =~= text_fields(1, name@) + pair_entries(2, ps.take(i + 1)));
            assert(Seq::<u8>::empty() + fields_bytes(done) =~= fields_bytes(done));
            assert(Seq::<u8>::empty() + fields_bytes(done + seq![f]) =~= fields_bytes(done + seq![f]));
        }
        i = i + 1;
    }
    assert(ps.take(i as int) =~= ps);
    buf
}

pub proof fn lemma_fields_bytes_part(fs: Seq<(nat, FieldData)>, i: int)
    requires
        0 <= i < fs.len(),
    ensures
        field_bytes(fs[i]).len() <= fields_bytes(fs).len(),
    decreases fs.len(),
{
    if i > 0 {
        lemma_fields_bytes_part(fs.skip(1), i - 1);
        assert(fs.skip(1)[i - 1] == fs[i]);
    }
}

proof fn lemma_text_empty(t: Seq<char>)
    requires
        encode_utf8(t).len() == 0,
    ensures
        t == Seq::<char>::empty(),
{
    assert(encode_utf8(t) =~= Seq::<u8>::empty());
    assert(decode_utf8(encode_utf8(t)) == t);
}

/// A text field decodes back to its text, or is absent for the empty text.
proof fn lemma_text_fields(tag: nat, t: Seq<char>)
    ensures
        text_fields(tag, t).len() == 0 ==> t == Seq::<char>::empty(),
        text_fields(tag, t).len() == 1 ==> text_of(text_fields(tag, t)[0].1) == Some(t)
            && text_fields(tag, t)[0].0 == tag,
        text_fields(tag, t).len() <= 1,
{
    if encode_utf8(t).len() == 0 {
        lemma_text_empty(t);
    }
}

/// Every field of `fs` is well formed when each has a tag of 1 or 2, is
/// length-delimited or a 64-bit varint, and the whole encoding is shorter
/// than 2^64 bytes.
proof fn lemma_fields_wf(fs: Seq<(nat, FieldData)>)
    requires
        fields_bytes(fs).len() < 0x1_0000_0000_0000_0000,
        forall|i: int| 0 <= i < fs.len() ==> (#[trigger] fs[i]).0 == 1 || fs[i].0 == 2,
        forall|i: int|
            0 <= i < fs.len() ==> (#[trigger] fs[i]).1 is Delimited || (fs[i].1 matches FieldData::Varint(
                x,
            ) && x < 0x1_0000_0000_0000_0000),
    ensures
        forall|i: int| 0 <= i < fs.len() ==> field_wf(#[trigger] fs[i]),
{
    assert forall|i: int| 0 <= i < fs.len() implies field_wf(#[trigger] fs[i]) by {
        lemma_fields_bytes_part(fs, i);
    }
}

/// A pair decodes back from its encoding.
pub proof fn lemma_pair_round_trip(p: PairView)
    requires
        pair_bytes(p).len() < 0x1_0000_0000_0000_0000,
    ensures
        merge_pair(empty_pair(), pair_bytes(p)) == Some(p),
{
    let a = text_fields(1, p.0);
    let b = text_fields(2, p.1);
    let fs = pair_fields(p);
    lemma_text_fields(1, p.0);
    lemma_text_fields(2, p.1);
    lemma_fields_wf(fs);
    lemma_fields_round_trip(fs);
    let st = pair_stepper();
    let e = Seq::<(nat, FieldData)>::empty();
    if a.len() == 0 {
        assert(e + b =~= fs);
        if b.len() == 0 {
            assert(fs =~= e);
        } else {
            assert(fs =~= e.push(b[0]));
            lemma_fold_push(empty_pair(), e, b[0], st);
        }
    } else {
        assert(e.push(a[0]) =~= a);
        lemma_fold_push(empty_pair(), e, a[0], st);
        if b.len() == 0 {
            assert(fs =~= a);
        } else {
            assert(fs =~= a.push(b[0]));
            lemma_fold_push(empty_pair(), a, b[0], st);
        }
    }
}

proof fn lemma_store_prefix(name: Seq<char>, ps: Seq<PairView>, j: int)
    requires
        0 <= j <= ps.len(),
        store_msg_bytes(name, ps).len() < 0x1_0000_0000_0000_0000,
    ensures
        fold_fields(
            (Seq::<char>::empty(), Seq::<PairView>::empty()),
            text_fields(1, name) + pair_entries(2, ps.take(j)),
            store_msg_stepper(),
        ) == Some((name, ps.take(j))),
    decreases j,
{
    let a = text_fields(1, name);
    let fs = store_fields(name, ps);
    let st = store_msg_stepper();
    let init = (Seq::<char>::empty(), Seq::<PairView>::empty());
    let e = Seq::<(nat, FieldData)>::empty();
    if j == 0 {
        lemma_text_fields(1, name);
        assert(a + pair_entries(2, ps.take(0)) =~= a);
        assert(ps.take(0) =~= Seq::<PairView>::empty());
        if a.len() == 0 {
            assert(a =~= e);
        } else {
            assert(e.push(a[0]) =~= a);
            lemma_fold_push(init, e, a[0], st);
        }
    } else {
        lemma_store_prefix(name, ps, j - 1);
        let f = (2nat, FieldData::Delimited(pair_bytes(ps[j - 1])));
        let done = a + pair_entries(2, ps.take(j - 1));
        assert(done.push(f) =~= a + pair_entries(2, ps.take(j)));
        lemma_fold_push(init, done, f, st);
        let k = a.len() + j - 1;
        assert(fs[k] == f);
        lemma_fields_bytes_part(fs, k);
        lemma_pair_round_trip(ps[j - 1]);
        assert(ps.take(j - 1).push(ps[j - 1]) =~= ps.take(j));
    }
}

/// A store message decodes back to its name and its pairs, in order.
pub proof fn lemma_store_msg_round_trip(name: Seq<char>, ps: Seq<PairView>)
    requires
        store_msg_bytes(name, ps).len() < 0x1_0000_0000_0000_0000,
    ensures
        decode_store_msg(store_msg_bytes(name, ps)) == Some((name, ps)),
{
    let fs = store_fields(name, ps);
    lemma_text_fields(1, name);
    lemma_fields_wf(fs);
    lemma_fields_round_trip(fs);
    lemma_store_prefix(name, ps, ps.len() as int);
    assert(ps.take(ps.len() as int) =~= ps);
}

/// A whole store as a message: its name and its pairs.
pub struct KeyValueStoreMsg {
    pub name: String,
    pub pairs: Vec<KeyValuePair>,
}

/// The operation that an envelope carries, by its code on the wire.
#[derive(Debug, Clone, Copy, PartialEq, Eq, Structural)]
pub enum ReqType {
    Ping,
    Create,
    Read,
    Update,
    Delete,
    Backup,
    Restore,
}

/// The code of each operation on the wire.
pub open spec fn op_code(op: ReqType) -> nat {
    match op {
        ReqType::Ping => 0,
        ReqType::Create => 1,
        ReqType::Read => 2,
        ReqType::Update => 3,
        ReqType::Delete => 4,
        ReqType::Backup => 5,
        ReqType::Restore => 6,
    }
}

/// The operation of a code, if any.
pub open spec fn op_of_code(code: nat) -> Option<ReqType> {
    if code == 0 {
        Some(ReqType::Ping)
    } else if code == 1 {
        Some(ReqType::Create)
    } else if code == 2 {
        Some(ReqType::Read)
    } else if code == 3 {
        Some(ReqType::Update)
    } else if code == 4 {
        Some(ReqType::Delete)
    } else if code == 5 {
        Some(ReqType::Backup)
    } else if code == 6 {
        Some(ReqType::Restore)
    } else {
        None
    }
}

impl ReqType {
    pub fn code(&self) -> (r: u64)
        ensures
            r as nat == op_code(*self),
    {
        match self {
            ReqType::Ping => 0,
            ReqType::Create => 1,
            ReqType::Read => 2,
            ReqType::Update => 3,
            ReqType::Delete => 4,
            ReqType::Backup => 5,
            ReqType::Restore => 6,
        }
    }

    pub fn from_code(code: u64) -> (r: Option<ReqType>)
        ensures
            r == op_of_code(code as nat),
    {
        if code == 0 {
            Some(ReqType::Ping)
        } else if code == 1 {
            Some(ReqType::Create)
        } else if code == 2 {
            Some(ReqType::Read)
        } else if code == 3 {
            Some(ReqType::Update)
        } else if code == 4 {
            Some(ReqType::Delete)
        } else if code == 5 {
            Some(ReqType::Backup)
        } else if code == 6 {
            Some(ReqType::Restore)
        } else {
            None
        }
    }
}

/// An envelope: operation code and encoded payload.
pub struct GenericRequest {
    pub req_type: u64,
    pub payload: Vec<u8>,
}

pub struct PingRequest {
    pub ping_message: String,
}

pub struct CreateKvPairReq {
    pub pair: Option<KeyValuePair>,
}

pub struct ReadKvPairReq {
    pub key: String,
}

pub struct UpdateKvPairReq {
    pub pair: Option<KeyValuePair>,
}

pub struct DeleteKvPairReq {
    pub key: String,
}

pub struct BackupReq {
    pub backup_id: String,
}

pub struct RestoreReq {
    pub backup_id: String,
}

pub struct CreateKvPairResp {
    pub success: bool,
}

/// Decoding a message of at most two fields, given what each step gives.
proof fn lemma_fold_two<S>(
    init: S,
    a: Seq<(nat, FieldData)>,
    b: Seq<(nat, FieldData)>,
    step: spec_fn(S, (nat, FieldData)) -> Option<S>,
)
    requires
        a.len() <= 1,
        b.len() <= 1,
    ensures
        fold_fields(init, a + b, step) == match (
        if a.len() == 0 {
            Some(init)
        } else {
            step(init, a[0])
        }) {
            Some(mid) => if b.len() == 0 {
                Some(mid)
            } else {
                step(mid, b[0])
            },
            None => None,
        },
{
    let e = Seq::<(nat, FieldData)>::empty();
    if a.len() == 1 {
        assert(e.push(a[0]) =~= a);
        lemma_fold_push(init, e, a[0], step);
    } else {
        assert(a =~= e);
    }
    if b.len() == 0 {
        assert(a + b =~= a);
    } else {
        assert(a + b =~= a.push(b[0]));
        lemma_fold_push(init, a, b[0], step);
    }
}

/// A message of one text field decodes back to its text.
pub proof fn lemma_text_msg_round_trip(t: Seq<char>)
    requires
        text_msg_bytes(t).len() < 0x1_0000_0000_0000_0000,
    ensures
        decode_text_msg(text_msg_bytes(t)) == Some(t),
{
    let fs = text_fields(1, t);
    lemma_text_fields(1, t);
    lemma_fields_wf(fs);
    lemma_fields_round_trip(fs);
    lemma_fold_two(Seq::<char>::empty(), fs, Seq::empty(), text_msg_stepper());
    assert(fs + Seq::<(nat, FieldData)>::empty() =~= fs);
}

/// A message of one flag decodes back to the flag.
pub proof fn lemma_flag_msg_round_trip(x: bool)
    ensures
        decode_flag_msg(flag_msg_bytes(x)) == Some(x),
{
    let fs = flag_fields(1, x);
    lemma_varint_bytes_one();
    lemma_fields_round_trip(fs);
    lemma_fold_two(false, fs, Seq::empty(), flag_msg_stepper());
    assert(fs + Seq::<(nat, FieldData)>::empty() =~= fs);
}

proof fn lemma_varint_bytes_one()
    ensures
        varint_bytes(1) == seq![1u8],
{
}

/// A flag message takes at most two bytes.
pub proof fn lemma_flag_msg_len(x: bool)
    ensures
        flag_msg_bytes(x).len() <= 2,
{
    lemma_fields_bytes_one((1, FieldData::Varint(1)));
    assert(varint_bytes(8) == seq![8u8]);
    lemma_varint_bytes_one();
}

/// A message of one optional pair decodes back to it.
pub proof fn lemma_pair_msg_round_trip(o: Option<PairView>)
    requires
        pair_msg_bytes(o).len() < 0x1_0000_0000_0000_0000,
    ensures
        decode_pair_msg(pair_msg_bytes(o)) == Some(o),
{
    let fs = opt_pair_fields(1, o);
    lemma_fields_wf(fs);
    lemma_fields_round_trip(fs);
    lemma_fold_two(None::<PairView>, fs, Seq::empty(), pair_msg_stepper());
    assert(fs + Seq::<(nat, FieldData)>::empty() =~= fs);
    if let Some(p) = o {
        lemma_fields_bytes_part(fs, 0);
        lemma_pair_round_trip(p);
    }
}

/// A read response decodes back to its flag and pair.
pub proof fn lemma_read_resp_round_trip(x: bool, o: Option<PairView>)
    requires
        read_resp_bytes(x, o).len() < 0x1_0000_0000_0000_0000,
    ensures
        decode_read_resp(read_resp_bytes(x, o)) == Some((x, o)),
{
    let a = flag_fields(1, x);
    let b = opt_pair_fields(2, o);
    let fs = a + b;
    lemma_fields_wf(fs);
    lemma_fields_round_trip(fs);
    lemma_fold_two((false, None::<PairView>), a, b, read_resp_stepper());
    if let Some(p) = o {
        lemma_fields_bytes_part(fs, a.len() as int);
        lemma_pair_round_trip(p);
    }
}

/// An envelope decodes back to its operation code and payload.
pub proof fn lemma_envelope_round_trip(code: nat, payload: Seq<u8>)
    requires
        code < 0x1_0000_0000_0000_0000,
        envelope_bytes(code, payload).len() < 0x1_0000_0000_0000_0000,
    ensures
        decode_envelope(envelope_bytes(code, payload)) == Some((code, payload)),
{
    let a = code_fields(1, code);
    let b = payload_fields(2, payload);
    let fs = a + b;
    lemma_fields_wf(fs);
    lemma_fields_round_trip(fs);
    lemma_fold_two((0nat, Seq::<u8>::empty()), a, b, envelope_stepper());
    if payload.len() == 0 {
        assert(payload =~= Seq::<u8>::empty());
    }
}

/// An envelope takes at most 40 bytes more than its payload.
pub proof fn lemma_envelope_len(code: nat, payload: Seq<u8>)
    requires
        code < 0x1_0000_0000_0000_0000,
        payload.len() < 0x1_0000_0000_0000_0000,
    ensures
        envelope_bytes(code, payload).len() <= payload.len() + 40,
{
    let a = code_fields(1, code);
    let b = payload_fields(2, payload);
    lemma_fields_bytes_append(a, b);
    lemma_varint_cap_zero();
    lemma_varint_round_trip(8, 0, Seq::empty());
    lemma_varint_round_trip(18, 0, Seq::empty());
    lemma_varint_round_trip(code, 0, Seq::empty());
    lemma_varint_round_trip(payload.len(), 0, Seq::empty());
    lemma_fields_bytes_one((1, FieldData::Varint(code)));
    lemma_fields_bytes_one((2, FieldData::Delimited(payload)));
}

} // verus!
