//! The wire envelope: the JSON shapes the renderer sends back.
//!
//! A session response line is `{"ok":bool,"result":{...}?,"error":"..."?}`;
//! a one-shot invocation prints the bare result object
//! `{"bytes":"<base64>","mime":"..."?,"warnings":[...]?}`. Members may come
//! in any order, unrecognized members are passed over, a member given as
//! `null` counts as absent, and a recognized member may not repeat.

use vstd::prelude::*;
use crate::json::{
    lit_at, lit_false, lit_false_at, lit_null, lit_null_at, lit_true, lit_true_at,
    parse_string_body, skip_value, skip_ws, spec_parse_string_body, spec_skip_value, spec_skip_ws,
};

verus! {

/// Mathematical image of a [`WirePayload`].
pub ghost struct WirePayloadSpec {
    pub bytes: Option<Seq<u8>>,
    pub mime: Option<Seq<u8>>,
    pub warnings: Option<Seq<Seq<u8>>>,
}

/// Mathematical image of a [`WireEnvelope`].
pub ghost struct WireEnvelopeSpec {
    pub ok: bool,
    pub error: Option<Seq<u8>>,
    pub result: Option<WirePayloadSpec>,
}

/// The result object of a response, fields still in wire form: `bytes` is
/// base64 text, string contents are unescaped UTF-8 bytes.
pub struct WirePayload {
    pub bytes: Option<Vec<u8>>,
    pub mime: Option<Vec<u8>>,
    pub warnings: Option<Vec<Vec<u8>>>,
}

impl View for WirePayload {
    type V = WirePayloadSpec;

    open spec fn view(&self) -> WirePayloadSpec {
        WirePayloadSpec {
            bytes: self.bytes.deep_view(),
            mime: self.mime.deep_view(),
            warnings: self.warnings.deep_view(),
        }
    }
}

/// One parsed response line of a session.
pub struct WireEnvelope {
    pub ok: bool,
    pub error: Option<Vec<u8>>,
    pub result: Option<WirePayload>,
}

impl View for WireEnvelope {
    type V = WireEnvelopeSpec;

    open spec fn view(&self) -> WireEnvelopeSpec {
        WireEnvelopeSpec {
            ok: self.ok,
            error: self.error.deep_view(),
            result: match self.result {
                None => None,
                Some(p) => Some(p@),
            },
        }
    }
}

pub open spec fn key_bytes() -> Seq<u8> {
    seq![0x62u8, 0x79u8, 0x74u8, 0x65u8, 0x73u8]
}

pub open spec fn key_mime() -> Seq<u8> {
    seq![0x6Du8, 0x69u8, 0x6Du8, 0x65u8]
}

pub open spec fn key_warnings() -> Seq<u8> {
    seq![0x77u8, 0x61u8, 0x72u8, 0x6Eu8, 0x69u8, 0x6Eu8, 0x67u8, 0x73u8]
}

pub open spec fn key_ok() -> Seq<u8> {
    seq![0x6Fu8, 0x6Bu8]
}

pub open spec fn key_error() -> Seq<u8> {
    seq![0x65u8, 0x72u8, 0x72u8, 0x6Fu8, 0x72u8]
}

pub open spec fn key_result() -> Seq<u8> {
    seq![0x72u8, 0x65u8, 0x73u8, 0x75u8, 0x6Cu8, 0x74u8]
}

/// Either `null` (an absent value) or a string, at `i`.
pub open spec fn spec_opt_string_value(s: Seq<u8>, i: int) -> Option<(Option<Seq<u8>>, int)> {
    if lit_at(s, i, lit_null()) {
        Some((None, i + 4))
    } else if 0 <= i < s.len() && s[i] == 0x22 {
        match spec_parse_string_body(s, i + 1) {
            None => None,
            Some((v, p)) => Some((Some(v), p)),
        }
    } else {
        None
    }
}

/// The items of an array of strings, entered at the first element.
pub open spec fn spec_parse_string_items(s: Seq<u8>, i: int) -> Option<(Seq<Seq<u8>>, int)>
    decreases s.len() - i,
{
    if i < 0 || i >= s.len() || s[i] != 0x22 {
        None
    } else {
        match spec_parse_string_body(s, i + 1) {
            None => None,
            Some((v, j)) => {
                if j <= i || j > s.len() {
                    None
                } else {
                    let k = spec_skip_ws(s, j);
                    if k < j || k >= s.len() {
                        None
                    } else if s[k] == 0x5D {
                        Some((seq![v], k + 1))
                    } else if s[k] == 0x2C {
                        let n = spec_skip_ws(s, k + 1);
                        if n <= i || n > s.len() {
                            None
                        } else {
                            match spec_parse_string_items(s, n) {
                                None => None,
                                Some((rest, q)) => Some((seq![v] + rest, q)),
                            }
                        }
                    } else {
                        None
                    }
                }
            },
        }
    }
}

/// An array whose elements must all be strings, at `i`.
pub open spec fn spec_parse_string_array(s: Seq<u8>, i: int) -> Option<(Seq<Seq<u8>>, int)> {
    if 0 <= i < s.len() && s[i] == 0x5B {
        let j = spec_skip_ws(s, i + 1);
        if j <= i || j > s.len() {
            None
        } else if j < s.len() && s[j] == 0x5D {
            Some((Seq::empty(), j + 1))
        } else {
            spec_parse_string_items(s, j)
        }
    } else {
        None
    }
}

/// Partial result object while its members are being read: `None` marks a
/// member not seen yet, so that a repeated member can be refused.
pub ghost struct PayloadAcc {
    pub bytes: Option<Option<Seq<u8>>>,
    pub mime: Option<Option<Seq<u8>>>,
    pub warnings: Option<Option<Seq<Seq<u8>>>>,
}

pub open spec fn payload_acc_empty() -> PayloadAcc {
    PayloadAcc { bytes: None, mime: None, warnings: None }
}

pub open spec fn opt_join<T>(o: Option<Option<T>>) -> Option<T> {
    match o {
        None => None,
        Some(x) => x,
    }
}

pub open spec fn payload_from_acc(acc: PayloadAcc) -> WirePayloadSpec {
    WirePayloadSpec {
        bytes: opt_join(acc.bytes),
        mime: opt_join(acc.mime),
        warnings: opt_join(acc.warnings),
    }
}

/// The value for one recognized or unrecognized member of the result
/// object, and the accumulator it leaves behind.
#[verifier::opaque]
pub open spec fn spec_payload_value(s: Seq<u8>, i: int, acc: PayloadAcc, key: Seq<u8>) -> Option<
    (PayloadAcc, int),
> {
    if key == key_bytes() {
        if acc.bytes is Some {
            None
        } else {
            match spec_opt_string_value(s, i) {
                None => None,
                Some((ov, p)) => Some((PayloadAcc { bytes: Some(ov), ..acc }, p)),
            }
        }
    } else if key == key_mime() {
        if acc.mime is Some {
            None
        } else {
            match spec_opt_string_value(s, i) {
                None => None,
                Some((ov, p)) => Some((PayloadAcc { mime: Some(ov), ..acc }, p)),
            }
        }
    } else if key == key_warnings() {
        if acc.warnings is Some {
            None
        } else if lit_at(s, i, lit_null()) {
            Some((PayloadAcc { warnings: Some(None), ..acc }, i + 4))
        } else {
            match spec_parse_string_array(s, i) {
                None => None,
                Some((ws, p)) => Some((PayloadAcc { warnings: Some(Some(ws)), ..acc }, p)),
            }
        }
    } else {
        match spec_skip_value(s, i) {
            None => None,
            Some(p) => Some((acc, p)),
        }
    }
}

/// The member list of the result object, entered past `{` and any
/// whitespace.
#[verifier::opaque]
pub open spec fn spec_payload_members(s: Seq<u8>, i: int, acc: PayloadAcc, first: bool) -> Option<
    (PayloadAcc, int),
>
    decreases s.len() - i,
{
    if i < 0 || i >= s.len() {
        None
    } else if first && s[i] == 0x7D {
        Some((acc, i + 1))
    } else if s[i] != 0x22 {
        None
    } else {
        match spec_parse_string_body(s, i + 1) {
            None => None,
            Some((key, j)) => {
                if j <= i || j > s.len() {
                    None
                } else {
                    let k = spec_skip_ws(s, j);
                    if k < j || k >= s.len() || s[k] != 0x3A {
                        None
                    } else {
                        let m = spec_skip_ws(s, k + 1);
                        if m <= i || m > s.len() {
                            None
                        } else {
                            match spec_payload_value(s, m, acc, key) {
                                None => None,
                                Some((acc2, p)) => {
                                    if p <= i || p > s.len() {
                                        None
                                    } else {
                                        let q = spec_skip_ws(s, p);
                                        if q < p || q >= s.len() {
                                            None
                                        } else if s[q] == 0x7D {
                                            Some((acc2, q + 1))
                                        } else if s[q] == 0x2C {
                                            let n = spec_skip_ws(s, q + 1);
                                            if n <= i || n > s.len() {
                                                None
                                            } else {
                                                spec_payload_members(s, n, acc2, false)
                                            }
                                        } else {
                                            None
                                        }
                                    }
                                },
                            }
                        }
                    }
                }
            },
        }
    }
}

/// A whole result object at `i`.
pub open spec fn spec_parse_payload_object(s: Seq<u8>, i: int) -> Option<(WirePayloadSpec, int)> {
    if 0 <= i < s.len() && s[i] == 0x7B {
        let j = spec_skip_ws(s, i + 1);
        if j <= i || j > s.len() {
            None
        } else {
            match spec_payload_members(s, j, payload_acc_empty(), true) {
                None => None,
                Some((acc, p)) => Some((payload_from_acc(acc), p)),
            }
        }
    } else {
        None
    }
}

/// Partial envelope while its members are being read.
pub ghost struct EnvelopeAcc {
    pub ok: Option<bool>,
    pub error: Option<Option<Seq<u8>>>,
    pub result: Option<Option<WirePayloadSpec>>,
}

pub open spec fn envelope_acc_empty() -> EnvelopeAcc {
    EnvelopeAcc { ok: None, error: None, result: None }
}

/// The finished envelope: `ok` is required, the rest default to absent.
pub open spec fn envelope_from_acc(acc: EnvelopeAcc) -> Option<WireEnvelopeSpec> {
    match acc.ok {
        None => None,
        Some(b) => Some(
            WireEnvelopeSpec { ok: b, error: opt_join(acc.error), result: opt_join(acc.result) },
        ),
    }
}

/// The value for one member of the envelope, and the accumulator it
/// leaves behind.
#[verifier::opaque]
pub open spec fn spec_envelope_value(s: Seq<u8>, i: int, acc: EnvelopeAcc, key: Seq<u8>) -> Option<
    (EnvelopeAcc, int),
> {
    if key == key_ok() {
        if acc.ok is Some {
            None
        } else if lit_at(s, i, lit_true()) {
            Some((EnvelopeAcc { ok: Some(true), ..acc }, i + 4))
        } else if lit_at(s, i, lit_false()) {
            Some((EnvelopeAcc { ok: Some(false), ..acc }, i + 5))
        } else {
            None
        }
    } else if key == key_error() {
        if acc.error is Some {
            None
        } else {
            match spec_opt_string_value(s, i) {
                None => None,
                Some((ov, p)) => Some((EnvelopeAcc { error: Some(ov), ..acc }, p)),
            }
        }
    } else if key == key_result() {
        if acc.result is Some {
            None
        } else if lit_at(s, i, lit_null()) {
            Some((EnvelopeAcc { result: Some(None), ..acc }, i + 4))
        } else {
            match spec_parse_payload_object(s, i) {
                None => None,
                Some((p, e)) => Some((EnvelopeAcc { result: Some(Some(p)), ..acc }, e)),
            }
        }
    } else {
        match spec_skip_value(s, i) {
            None => None,
            Some(p) => Some((acc, p)),
        }
    }
}

/// The member list of the envelope, entered past `{` and any whitespace.
#[verifier::opaque]
pub open spec fn spec_envelope_members(s: Seq<u8>, i: int, acc: EnvelopeAcc, first: bool) -> Option<
    (EnvelopeAcc, int),
>
    decreases s.len() - i,
{
    if i < 0 || i >= s.len() {
        None
    } else if first && s[i] == 0x7D {
        Some((acc, i + 1))
    } else if s[i] != 0x22 {
        None
    } else {
        match spec_parse_string_body(s, i + 1) {
            None => None,
            Some((key, j)) => {
                if j <= i || j > s.len() {
                    None
                } else {
                    let k = spec_skip_ws(s, j);
                    if k < j || k >= s.len() || s[k] != 0x3A {
                        None
                    } else {
                        let m = spec_skip_ws(s, k + 1);
                        if m <= i || m > s.len() {
                            None
                        } else {
                            match spec_envelope_value(s, m, acc, key) {
                                None => None,
                                Some((acc2, p)) => {
                                    if p <= i || p > s.len() {
                                        None
                                    } else {
                                        let q = spec_skip_ws(s, p);
                                        if q < p || q >= s.len() {
                                            None
                                        } else if s[q] == 0x7D {
                                            Some((acc2, q + 1))
                                        } else if s[q] == 0x2C {
                                            let n = spec_skip_ws(s, q + 1);
                                            if n <= i || n > s.len() {
                                                None
                                            } else {
                                                spec_envelope_members(s, n, acc2, false)
                                            }
                                        } else {
                                            None
                                        }
                                    }
                                },
                            }
                        }
                    }
                }
            },
        }
    }
}

/// A whole envelope object at `i`.
pub open spec fn spec_parse_envelope_object(s: Seq<u8>, i: int) -> Option<(WireEnvelopeSpec, int)> {
    if 0 <= i < s.len() && s[i] == 0x7B {
        let j = spec_skip_ws(s, i + 1);
        if j <= i || j > s.len() {
            None
        } else {
            match spec_envelope_members(s, j, envelope_acc_empty(), true) {
                None => None,
                Some((acc, p)) => match envelope_from_acc(acc) {
                    None => None,
                    Some(env) => Some((env, p)),
                },
            }
        }
    } else {
        None
    }
}

/// One whole response line: the envelope with nothing but whitespace
/// around it.
pub open spec fn spec_parse_envelope_doc(s: Seq<u8>) -> Option<WireEnvelopeSpec> {
    let i = spec_skip_ws(s, 0);
    match spec_parse_envelope_object(s, i) {
        None => None,
        Some((env, j)) => {
            if j < 0 || j > s.len() {
                None
            } else if spec_skip_ws(s, j) == s.len() {
                Some(env)
            } else {
                None
            }
        },
    }
}

/// One whole output document of a one-shot invocation: the bare result
/// object with nothing but whitespace around it.
pub open spec fn spec_parse_payload_doc(s: Seq<u8>) -> Option<WirePayloadSpec> {
    let i = spec_skip_ws(s, 0);
    match spec_parse_payload_object(s, i) {
        None => None,
        Some((p, j)) => {
            if j < 0 || j > s.len() {
                None
            } else if spec_skip_ws(s, j) == s.len() {
                Some(p)
            } else {
                None
            }
        },
    }
}

fn key_is_bytes(v: &Vec<u8>) -> (b: bool)
    ensures
        b == (v@ == key_bytes()),
{
    if v.len() == 5 && v[0] == 0x62 && v[1] == 0x79 && v[2] == 0x74 && v[3] == 0x65 && v[4]
        == 0x73 {
        proof {
            assert(v@ =~= key_bytes());
        }
        true
    } else {
        proof {
            if v@ == key_bytes() {
                assert(v@.len() == 5 && v@[0] == 0x62 && v@[1] == 0x79 && v@[2] == 0x74 && v@[3]
                    == 0x65 && v@[4] == 0x73);
            }
        }
        false
    }
}

fn key_is_mime(v: &Vec<u8>) -> (b: bool)
    ensures
        b == (v@ == key_mime()),
{
    if v.len() == 4 && v[0] == 0x6D && v[1] == 0x69 && v[2] == 0x6D && v[3] == 0x65 {
        proof {
            assert(v@ =~= key_mime());
        }
        true
    } else {
        proof {
            if v@ == key_mime() {
                assert(v@.len() == 4 && v@[0] == 0x6D && v@[1] == 0x69 && v@[2] == 0x6D && v@[3]
                    == 0x65);
            }
        }
        false
    }
}

fn key_is_warnings(v: &Vec<u8>) -> (b: bool)
    ensures
        b == (v@ == key_warnings()),
{
    if v.len() == 8 && v[0] == 0x77 && v[1] == 0x61 && v[2] == 0x72 && v[3] == 0x6E && v[4] == 0x69
        && v[5] == 0x6E && v[6] == 0x67 && v[7] == 0x73 {
        proof {
            assert(v@ =~= key_warnings());
        }
        true
    } else {
        proof {
            if v@ == key_warnings() {
                assert(v@.len() == 8 && v@[0] == 0x77 && v@[1] == 0x61 && v@[2] == 0x72 && v@[3]
                    == 0x6E && v@[4] == 0x69 && v@[5] == 0x6E && v@[6] == 0x67 && v@[7] == 0x73);
            }
        }
        false
    }
}

fn key_is_ok(v: &Vec<u8>) -> (b: bool)
    ensures
        b == (v@ == key_ok()),
{
    if v.len() == 2 && v[0] == 0x6F && v[1] == 0x6B {
        proof {
            assert(v@ =~= key_ok());
        }
        true
    } else {
        proof {
            if v@ == key_ok() {
                assert(v@.len() == 2 && v@[0] == 0x6F && v@[1] == 0x6B);
            }
        }
        false
    }
}

fn key_is_error(v: &Vec<u8>) -> (b: bool)
    ensures
        b == (v@ == key_error()),
{
    if v.len() == 5 && v[0] == 0x65 && v[1] == 0x72 && v[2] == 0x72 && v[3] == 0x6F && v[4]
        == 0x72 {
        proof {
            assert(v@ =~= key_error());
        }
        true
    } else {
        proof {
            if v@ == key_error() {
                assert(v@.len() == 5 && v@[0] == 0x65 && v@[1] == 0x72 && v@[2] == 0x72 && v@[3]
                    == 0x6F && v@[4] == 0x72);
            }
        }
        false
    }
}

fn key_is_result(v: &Vec<u8>) -> (b: bool)
    ensures
        b == (v@ == key_result()),
{
    if v.len() == 6 && v[0] == 0x72 && v[1] == 0x65 && v[2] == 0x73 && v[3] == 0x75 && v[4] == 0x6C
        && v[5] == 0x74 {
        proof {
            assert(v@ =~= key_result());
        }
        true
    } else {
        proof {
            if v@ == key_result() {
                assert(v@.len() == 6 && v@[0] == 0x72 && v@[1] == 0x65 && v@[2] == 0x73 && v@[3]
                    == 0x75 && v@[4] == 0x6C && v@[5] == 0x74);
            }
        }
        false
    }
}

fn opt_string_value(s: &[u8], i: usize) -> (r: Option<(Option<Vec<u8>>, usize)>)
    requires
        i <= s@.len(),
    ensures
        match r {
            Some((ov, p)) => spec_opt_string_value(s@, i as int) == Some((ov.deep_view(), p as int))
                && i < p <= s@.len(),
            None => spec_opt_string_value(s@, i as int) is None,
        },
{
    let n = s.len();
    if lit_null_at(s, i) {
        proof {
            assert(i + 4 <= n);
        }
        Some((None, i + 4))
    } else if i < n && s[i] == 0x22 {
        match parse_string_body(s, i + 1) {
            None => None,
            Some((v, p)) => Some((Some(v), p)),
        }
    } else {
        None
    }
}

/// The parse that results from putting `prefix` in front of the items
/// of `r`.
pub open spec fn prepend_items(prefix: Seq<Seq<u8>>, r: Option<(Seq<Seq<u8>>, int)>) -> Option<
    (Seq<Seq<u8>>, int),
> {
    match r {
        None => None,
        Some((rest, j)) => Some((prefix + rest, j)),
    }
}

proof fn lemma_prepend_items_assoc(a: Seq<Seq<u8>>, b: Seq<Seq<u8>>, r: Option<(Seq<Seq<u8>>, int)>)
    ensures
        prepend_items(a, prepend_items(b, r)) == prepend_items(a + b, r),
{
    match r {
        None => {},
        Some((rest, j)) => {
            assert(a + (b + rest) =~= (a + b) + rest);
        },
    }
}

fn parse_string_items(s: &[u8], i: usize) -> (r: Option<(Vec<Vec<u8>>, usize)>)
    requires
        i <= s@.len(),
    ensures
        match r {
            Some((v, j)) => spec_parse_string_items(s@, i as int) == Some(
                (v.deep_view(), j as int),
            ) && i < j <= s@.len(),
            None => spec_parse_string_items(s@, i as int) is None,
        },
{
    let mut out: Vec<Vec<u8>> = Vec::new();
    let mut k = i;
    proof {
        match spec_parse_string_items(s@, i as int) {
            Some((rest, j)) => {
                assert(Seq::<Seq<u8>>::empty() + rest =~= rest);
            },
            None => {},
        }
    }
    loop
        invariant
            i <= k <= s@.len(),
            spec_parse_string_items(s@, i as int) == prepend_items(
                out.deep_view(),
                spec_parse_string_items(s@, k as int),
            ),
        decreases s@.len() - k,
    {
        if k >= s.len() || s[k] != 0x22 {
            return None;
        }
        match parse_string_body(s, k + 1) {
            None => {
                return None;
            },
            Some((v, j)) => {
                let w = skip_ws(s, j);
                if w >= s.len() {
                    return None;
                }
                if s[w] == 0x5D {
                    let ghost out_before = out.deep_view();
                    out.push(v);
                    proof {
                        assert(out.deep_view() =~~= out_before + seq![v@]);
                        assert(out_before + seq![v@] + Seq::<Seq<u8>>::empty() =~= out_before
                            + seq![v@]);
                    }
                    return Some((out, w + 1));
                } else if s[w] == 0x2C {
                    let n = skip_ws(s, w + 1);
                    let ghost out_before = out.deep_view();
                    out.push(v);
                    proof {
                        assert(out.deep_view() =~~= out_before + seq![v@]);
                        lemma_prepend_items_assoc(
                            out_before,
                            seq![v@],
                            spec_parse_string_items(s@, n as int),
                        );
                    }
                    k = n;
                } else {
                    return None;
                }
            },
        }
    }
}

fn parse_string_array(s: &[u8], i: usize) -> (r: Option<(Vec<Vec<u8>>, usize)>)
    requires
        i <= s@.len(),
    ensures
        match r {
            Some((v, j)) => spec_parse_string_array(s@, i as int) == Some(
                (v.deep_view(), j as int),
            ) && i < j <= s@.len(),
            None => spec_parse_string_array(s@, i as int) is None,
        },
{
    if i < s.len() && s[i] == 0x5B {
        let j = skip_ws(s, i + 1);
        if j < s.len() && s[j] == 0x5D {
            let out: Vec<Vec<u8>> = Vec::new();
            proof {
                assert(out.deep_view() =~~= Seq::<Seq<u8>>::empty());
            }
            Some((out, j + 1))
        } else {
            parse_string_items(s, j)
        }
    } else {
        None
    }
}

/// The accumulator a partially read result object stands for.
pub open spec fn payload_acc_of(
    ab: Option<Option<Vec<u8>>>,
    am: Option<Option<Vec<u8>>>,
    aw: Option<Option<Vec<Vec<u8>>>>,
) -> PayloadAcc {
    PayloadAcc { bytes: ab.deep_view(), mime: am.deep_view(), warnings: aw.deep_view() }
}

fn payload_finalize(
    ab: Option<Option<Vec<u8>>>,
    am: Option<Option<Vec<u8>>>,
    aw: Option<Option<Vec<Vec<u8>>>>,
) -> (p: WirePayload)
    ensures
        p@ == payload_from_acc(payload_acc_of(ab, am, aw)),
{
    WirePayload {
        bytes: match ab {
            None => None,
            Some(x) => x,
        },
        mime: match am {
            None => None,
            Some(x) => x,
        },
        warnings: match aw {
            None => None,
            Some(x) => x,
        },
    }
}

fn payload_value_x(
    s: &[u8],
    m: usize,
    key: &Vec<u8>,
    ab: &mut Option<Option<Vec<u8>>>,
    am: &mut Option<Option<Vec<u8>>>,
    aw: &mut Option<Option<Vec<Vec<u8>>>>,
) -> (r: Option<usize>)
    requires
        m <= s@.len(),
    ensures
        match r {
            Some(p) => spec_payload_value(
                s@,
                m as int,
                payload_acc_of(*old(ab), *old(am), *old(aw)),
                key@,
            ) == Some((payload_acc_of(*final(ab), *final(am), *final(aw)), p as int)) && m < p
                <= s@.len(),
            None => spec_payload_value(
                s@,
                m as int,
                payload_acc_of(*old(ab), *old(am), *old(aw)),
                key@,
            ) is None,
        },
{
    proof {
        reveal(spec_payload_value);
    }
    let n = s.len();
    if key_is_bytes(key) {
        if ab.is_some() {
            return None;
        }
        match opt_string_value(s, m) {
            None => None,
            Some((ov, p)) => {
                *ab = Some(ov);
                Some(p)
            },
        }
    } else if key_is_mime(key) {
        if am.is_some() {
            return None;
        }
        match opt_string_value(s, m) {
            None => None,
            Some((ov, p)) => {
                *am = Some(ov);
                Some(p)
            },
        }
    } else if key_is_warnings(key) {
        if aw.is_some() {
            return None;
        }
        if lit_null_at(s, m) {
            *aw = Some(None);
            proof {
                assert(m + 4 <= n);
            }
            Some(m + 4)
        } else {
            match parse_string_array(s, m) {
                None => None,
                Some((ws, p)) => {
                    *aw = Some(Some(ws));
                    Some(p)
                },
            }
        }
    } else {
        skip_value(s, m)
    }
}

#[verifier::rlimit(100)]
pub(crate) fn parse_payload_object(s: &[u8], i: usize) -> (r: Option<(WirePayload, usize)>)
    requires
        i <= s@.len(),
    ensures
        match r {
            Some((p, j)) => spec_parse_payload_object(s@, i as int) == Some((p@, j as int)) && i < j
                <= s@.len(),
            None => spec_parse_payload_object(s@, i as int) is None,
        },
{
    if i >= s.len() || s[i] != 0x7B {
        return None;
    }
    let j0 = skip_ws(s, i + 1);
    let mut ab: Option<Option<Vec<u8>>> = None;
    let mut am: Option<Option<Vec<u8>>> = None;
    let mut aw: Option<Option<Vec<Vec<u8>>>> = None;
    let mut k = j0;
    let mut first = true;
    loop
        invariant
            i < s@.len(),
            s@[i as int] == 0x7B,
            j0 as int == spec_skip_ws(s@, i + 1),
            i < j0 <= s@.len(),
            j0 <= k <= s@.len(),
            i < k,
            spec_payload_members(s@, j0 as int, payload_acc_empty(), true) == spec_payload_members(
                s@,
                k as int,
                payload_acc_of(ab, am, aw),
                first,
            ),
        decreases s@.len() - k,
    {
        proof {
            reveal(spec_payload_members);
        }
        if k >= s.len() {
            return None;
        }
        if first && s[k] == 0x7D {
            let out = payload_finalize(ab, am, aw);
            return Some((out, k + 1));
        }
        if s[k] != 0x22 {
            return None;
        }
        match parse_string_body(s, k + 1) {
            None => {
                return None;
            },
            Some((key, j)) => {
                let c = skip_ws(s, j);
                if c >= s.len() {
                    return None;
                }
                if s[c] != 0x3A {
                    return None;
                }
                let m = skip_ws(s, c + 1);
                let ghost acc0 = payload_acc_of(ab, am, aw);
                match payload_value_x(s, m, &key, &mut ab, &mut am, &mut aw) {
                    None => {
                        return None;
                    },
                    Some(p) => {
                        let ghost acc1 = payload_acc_of(ab, am, aw);
                        let q = skip_ws(s, p);
                        if q >= s.len() {
                            return None;
                        }
                        if s[q] == 0x7D {
                            proof {
                                assert(spec_payload_members(s@, k as int, acc0, first) == Some(
                                    (acc1, q + 1),
                                ));
                            }
                            let out = payload_finalize(ab, am, aw);
                            return Some((out, q + 1));
                        } else if s[q] == 0x2C {
                            let n = skip_ws(s, q + 1);
                            proof {
                                assert(spec_payload_members(s@, k as int, acc0, first)
                                    == spec_payload_members(s@, n as int, acc1, false));
                            }
                            k = n;
                            first = false;
                        } else {
                            return None;
                        }
                    },
                }
            },
        }
    }
}

/// View of a partially read `result` member.
pub open spec fn opt_opt_payload_view(ar: Option<Option<WirePayload>>) -> Option<
    Option<WirePayloadSpec>,
> {
    match ar {
        None => None,
        Some(None) => Some(None),
        Some(Some(p)) => Some(Some(p@)),
    }
}

/// The accumulator a partially read envelope stands for.
pub open spec fn envelope_acc_of(
    ao: Option<bool>,
    ae: Option<Option<Vec<u8>>>,
    ar: Option<Option<WirePayload>>,
) -> EnvelopeAcc {
    EnvelopeAcc { ok: ao, error: ae.deep_view(), result: opt_opt_payload_view(ar) }
}

fn envelope_finalize(
    ok: bool,
    ae: Option<Option<Vec<u8>>>,
    ar: Option<Option<WirePayload>>,
) -> (env: WireEnvelope)
    ensures
        envelope_from_acc(envelope_acc_of(Some(ok), ae, ar)) == Some(env@),
{
    WireEnvelope {
        ok: ok,
        error: match ae {
            None => None,
            Some(x) => x,
        },
        result: match ar {
            None => None,
            Some(x) => x,
        },
    }
}

fn envelope_value_x(
    s: &[u8],
    m: usize,
    key: &Vec<u8>,
    ao: &mut Option<bool>,
    ae: &mut Option<Option<Vec<u8>>>,
    ar: &mut Option<Option<WirePayload>>,
) -> (r: Option<usize>)
    requires
        m <= s@.len(),
    ensures
        match r {
            Some(p) => spec_envelope_value(
                s@,
                m as int,
                envelope_acc_of(*old(ao), *old(ae), *old(ar)),
                key@,
            ) == Some((envelope_acc_of(*final(ao), *final(ae), *final(ar)), p as int)) && m < p
                <= s@.len(),
            None => spec_envelope_value(
                s@,
                m as int,
                envelope_acc_of(*old(ao), *old(ae), *old(ar)),
                key@,
            ) is None,
        },
{
    proof {
        reveal(spec_envelope_value);
    }
    let n = s.len();
    if key_is_ok(key) {
        if ao.is_some() {
            return None;
        }
        if lit_true_at(s, m) {
            *ao = Some(true);
            proof {
                assert(m + 4 <= n);
            }
            Some(m + 4)
        } else if lit_false_at(s, m) {
            *ao = Some(false);
            proof {
                assert(m + 5 <= n);
            }
            Some(m + 5)
        } else {
            None
        }
    } else if key_is_error(key) {
        if ae.is_some() {
            return None;
        }
        match opt_string_value(s, m) {
            None => None,
            Some((ov, p)) => {
                *ae = Some(ov);
                Some(p)
            },
        }
    } else if key_is_result(key) {
        if ar.is_some() {
            return None;
        }
        if lit_null_at(s, m) {
            *ar = Some(None);
            proof {
                assert(m + 4 <= n);
            }
            Some(m + 4)
        } else {
            match parse_payload_object(s, m) {
                None => None,
                Some((pl, p)) => {
                    *ar = Some(Some(pl));
                    Some(p)
                },
            }
        }
    } else {
        skip_value(s, m)
    }
}

#[verifier::rlimit(100)]
pub(crate) fn parse_envelope_object(s: &[u8], i: usize) -> (r: Option<(WireEnvelope, usize)>)
    requires
        i <= s@.len(),
    ensures
        match r {
            Some((env, j)) => spec_parse_envelope_object(s@, i as int) == Some((env@, j as int))
                && i < j <= s@.len(),
            None => spec_parse_envelope_object(s@, i as int) is None,
        },
{
    if i >= s.len() || s[i] != 0x7B {
        return None;
    }
    let j0 = skip_ws(s, i + 1);
    let mut ao: Option<bool> = None;
    let mut ae: Option<Option<Vec<u8>>> = None;
    let mut ar: Option<Option<WirePayload>> = None;
    let mut k = j0;
    let mut first = true;
    loop
        invariant
            i < s@.len(),
            s@[i as int] == 0x7B,
            j0 as int == spec_skip_ws(s@, i + 1),
            i < j0 <= s@.len(),
            j0 <= k <= s@.len(),
            i < k,
            spec_envelope_members(s@, j0 as int, envelope_acc_empty(), true)
                == spec_envelope_members(s@, k as int, envelope_acc_of(ao, ae, ar), first),
        decreases s@.len() - k,
    {
        proof {
            reveal(spec_envelope_members);
        }
        if k >= s.len() {
            return None;
        }
        if first && s[k] == 0x7D {
            match ao {
                None => {
                    return None;
                },
                Some(b) => {
                    let env = envelope_finalize(b, ae, ar);
                    return Some((env, k + 1));
                },
            }
        }
        if s[k] != 0x22 {
            return None;
        }
        match parse_string_body(s, k + 1) {
            None => {
                return None;
            },
            Some((key, j)) => {
                let c = skip_ws(s, j);
                if c >= s.len() {
                    return None;
                }
                if s[c] != 0x3A {
                    return None;
                }
                let m = skip_ws(s, c + 1);
                let ghost acc0 = envelope_acc_of(ao, ae, ar);
                match envelope_value_x(s, m, &key, &mut ao, &mut ae, &mut ar) {
                    None => {
                        return None;
                    },
                    Some(p) => {
                        let ghost acc1 = envelope_acc_of(ao, ae, ar);
                        let q = skip_ws(s, p);
                        if q >= s.len() {
                            return None;
                        }
                        if s[q] == 0x7D {
                            proof {
                                assert(spec_envelope_members(s@, k as int, acc0, first) == Some(
                                    (acc1, q + 1),
                                ));
                            }
                            match ao {
                                None => {
                                    return None;
                                },
                                Some(b) => {
                                    let env = envelope_finalize(b, ae, ar);
                                    return Some((env, q + 1));
                                },
                            }
                        } else if s[q] == 0x2C {
                            let n = skip_ws(s, q + 1);
                            proof {
                                assert(spec_envelope_members(s@, k as int, acc0, first)
                                    == spec_envelope_members(s@, n as int, acc1, false));
                            }
                            k = n;
                            first = false;
                        } else {
                            return None;
                        }
                    },
                }
            },
        }
    }
}

/// Parses one whole session response line.
pub(crate) fn parse_envelope_doc(s: &[u8]) -> (r: Option<WireEnvelope>)
    ensures
        match r {
            Some(env) => spec_parse_envelope_doc(s@) == Some(env@),
            None => spec_parse_envelope_doc(s@) is None,
        },
{
    let i = skip_ws(s, 0);
    match parse_envelope_object(s, i) {
        None => None,
        Some((env, j)) => {
            let k = skip_ws(s, j);
            if k == s.len() {
                Some(env)
            } else {
                None
            }
        },
    }
}

/// Parses one whole one-shot output document.
pub(crate) fn parse_payload_doc(s: &[u8]) -> (r: Option<WirePayload>)
    ensures
        match r {
            Some(p) => spec_parse_payload_doc(s@) == Some(p@),
            None => spec_parse_payload_doc(s@) is None,
        },
{
    let i = skip_ws(s, 0);
    match parse_payload_object(s, i) {
        None => None,
        Some((p, j)) => {
            let k = skip_ws(s, j);
            if k == s.len() {
                Some(p)
            } else {
                None
            }
        },
    }
}

} // verus!
