//! The transport codec: one request to one JSON line, one response line
//! (or one-shot output document) back to a result or error.

use vstd::prelude::*;
use vstd::string::StringSliceAdditionalSpecFns;
use vstd::utf8::{decode_utf8, valid_utf8};
use crate::errors::{Error, ErrorSpec};
use crate::foreign::{b64_decoded, base64_decode, string_from_utf8};
use crate::json::{
    esc_byte, escape_bytes, hex4, hex_digit, hex_val, lemma_escape_snoc, quote_bytes,
    spec_parse_string_body, unescape_simple,
};
use crate::result::{RenderResult, RenderResultSpec};
use crate::wire::{
    parse_envelope_doc, parse_payload_doc, spec_parse_envelope_doc, spec_parse_payload_doc,
    WirePayload, WirePayloadSpec,
};

verus! {

pub open spec fn msg_bad_json() -> Seq<char> {
    "malformed response from renderer"@
}

pub open spec fn msg_bad_b64() -> Seq<char> {
    "invalid base64 in renderer response"@
}

pub open spec fn msg_bad_text() -> Seq<char> {
    "invalid text encoding in renderer response"@
}

pub open spec fn msg_no_bytes() -> Seq<char> {
    "mermkit render returned no bytes"@
}

pub open spec fn msg_missing_result() -> Seq<char> {
    "missing result"@
}

pub open spec fn msg_render_failed() -> Seq<char> {
    "mermkit render failed"@
}

pub open spec fn default_mime() -> Seq<char> {
    "application/octet-stream"@
}

/// View of a decode outcome, for stating contracts.
pub open spec fn result_view(r: Result<RenderResult, Error>) -> Result<
    RenderResultSpec,
    ErrorSpec,
> {
    match r {
        Ok(x) => Ok(x@),
        Err(e) => Err(e@),
    }
}

pub open spec fn all_valid_utf8(ws: Seq<Seq<u8>>) -> bool {
    forall|t: int| 0 <= t < ws.len() ==> valid_utf8(ws[t])
}

pub open spec fn decode_all(ws: Seq<Seq<u8>>) -> Seq<Seq<char>> {
    ws.map_values(|w: Seq<u8>| decode_utf8(w))
}

/// What a success payload decodes to: the base64 byte field is required
/// and must decode to something non-empty, the content type defaults to
/// a generic octet-stream type, warnings default to none.
pub open spec fn spec_finish_payload(p: WirePayloadSpec) -> Result<RenderResultSpec, ErrorSpec> {
    match p.bytes {
        None => Err(ErrorSpec::RenderError(msg_no_bytes())),
        Some(t) => match b64_decoded(t) {
            None => Err(ErrorSpec::ProtocolError(msg_bad_b64())),
            Some(bs) => if bs.len() == 0 {
                Err(ErrorSpec::RenderError(msg_no_bytes()))
            } else {
                let mime_ok = match p.mime {
                    None => true,
                    Some(mb) => valid_utf8(mb),
                };
                let warn_ok = match p.warnings {
                    None => true,
                    Some(ws) => all_valid_utf8(ws),
                };
                if !mime_ok || !warn_ok {
                    Err(ErrorSpec::ProtocolError(msg_bad_text()))
                } else {
                    Ok(
                        RenderResultSpec {
                            bytes: bs,
                            mime: match p.mime {
                                None => default_mime(),
                                Some(mb) => decode_utf8(mb),
                            },
                            warnings: match p.warnings {
                                None => Seq::empty(),
                                Some(ws) => decode_all(ws),
                            },
                        },
                    )
                }
            },
        },
    }
}

/// What one session response line decodes to.
pub open spec fn spec_decode_response(s: Seq<u8>) -> Result<RenderResultSpec, ErrorSpec> {
    match spec_parse_envelope_doc(s) {
        None => Err(ErrorSpec::ProtocolError(msg_bad_json())),
        Some(env) => if !env.ok {
            match env.error {
                None => Err(ErrorSpec::RenderError(msg_render_failed())),
                Some(e) => if valid_utf8(e) {
                    Err(ErrorSpec::RenderError(decode_utf8(e)))
                } else {
                    Err(ErrorSpec::ProtocolError(msg_bad_text()))
                },
            }
        } else {
            match env.result {
                None => Err(ErrorSpec::RenderError(msg_missing_result())),
                Some(p) => spec_finish_payload(p),
            }
        },
    }
}

/// What one one-shot output document decodes to.
pub open spec fn spec_decode_payload(s: Seq<u8>) -> Result<RenderResultSpec, ErrorSpec> {
    match spec_parse_payload_doc(s) {
        None => Err(ErrorSpec::ProtocolError(msg_bad_json())),
        Some(p) => spec_finish_payload(p),
    }
}

fn convert_warnings(ws: &Vec<Vec<u8>>) -> (r: Option<Vec<String>>)
    ensures
        match r {
            Some(out) => all_valid_utf8(ws.deep_view()) && out.deep_view() == decode_all(
                ws.deep_view(),
            ),
            None => !all_valid_utf8(ws.deep_view()),
        },
{
    let mut out: Vec<String> = Vec::new();
    let mut k: usize = 0;
    while k < ws.len()
        invariant
            0 <= k <= ws.len(),
            out.deep_view().len() == k,
            forall|t: int|
                0 <= t < k ==> valid_utf8(#[trigger] ws.deep_view()[t]) && out.deep_view()[t]
                    == decode_utf8(ws.deep_view()[t]),
        decreases ws.len() - k,
    {
        proof {
            assert(ws@[k as int].deep_view() =~= ws@[k as int]@);
            assert(ws.deep_view()[k as int] == ws@[k as int]@);
        }
        match string_from_utf8(ws[k].as_slice()) {
            None => {
                proof {
                    assert(!valid_utf8(ws.deep_view()[k as int]));
                    assert(!all_valid_utf8(ws.deep_view()));
                }
                return None;
            },
            Some(t) => {
                let ghost out0 = out.deep_view();
                out.push(t);
                proof {
                    assert(out.deep_view() =~~= out0.push(t@));
                    assert forall|t2: int| 0 <= t2 < k + 1 implies valid_utf8(
                        #[trigger] ws.deep_view()[t2],
                    ) && out.deep_view()[t2] == decode_utf8(ws.deep_view()[t2]) by {
                        if t2 == k {
                            assert(valid_utf8(ws.deep_view()[t2]));
                            assert(out.deep_view()[t2] == t@);
                        } else {
                            assert(valid_utf8(ws.deep_view()[t2]) && out.deep_view()[t2]
                                == decode_utf8(ws.deep_view()[t2]));
                        }
                    }
                }
            },
        }
        k = k + 1;
    }
    proof {
        assert forall|t: int| 0 <= t < ws.deep_view().len() implies valid_utf8(
            #[trigger] ws.deep_view()[t],
        ) by {
            assert(valid_utf8(ws.deep_view()[t]) && out.deep_view()[t] == decode_utf8(
                ws.deep_view()[t],
            ));
        }
        assert(out.deep_view() =~~= decode_all(ws.deep_view()));
    }
    Some(out)
}

/// Turns a parsed result object into the final [`RenderResult`] or error.
pub fn finish_payload(p: &WirePayload) -> (r: Result<RenderResult, Error>)
    ensures
        result_view(r) == spec_finish_payload(p@),
        r matches Ok(rr) ==> rr@.wf(),
{
    let bt = match &p.bytes {
        None => {
            return Err(Error::RenderError("mermkit render returned no bytes".to_owned()));
        },
        Some(t) => t,
    };
    proof {
        assert(bt.deep_view() =~= bt@);
    }
    let bs = match base64_decode(bt.as_slice()) {
        None => {
            return Err(Error::ProtocolError("invalid base64 in renderer response".to_owned()));
        },
        Some(bs) => bs,
    };
    if bs.len() == 0 {
        return Err(Error::RenderError("mermkit render returned no bytes".to_owned()));
    }
    let mime: String = match &p.mime {
        None => "application/octet-stream".to_owned(),
        Some(mb) => {
            proof {
                assert(mb.deep_view() =~= mb@);
            }
            match string_from_utf8(mb.as_slice()) {
            None => {
                return Err(
                    Error::ProtocolError("invalid text encoding in renderer response".to_owned()),
                );
            },
                Some(t) => t,
            }
        },
    };
    let warnings: Vec<String> = match &p.warnings {
        None => {
            let w: Vec<String> = Vec::new();
            proof {
                assert(w.deep_view() =~~= Seq::<Seq<char>>::empty());
            }
            w
        },
        Some(ws) => match convert_warnings(ws) {
            None => {
                return Err(
                    Error::ProtocolError("invalid text encoding in renderer response".to_owned()),
                );
            },
            Some(out) => out,
        },
    };
    Ok(RenderResult { bytes: bs, mime: mime, warnings: warnings })
}

/// Decodes one session response line, as the Wire Envelope defines it:
/// a line that is not one well-formed envelope is a protocol error; an
/// envelope with `ok` false is the renderer's own failure, carrying its
/// message or a fixed fallback; a success without a usable byte payload
/// is a render error; otherwise the payload's fields with their
/// documented defaults.
pub fn decode_response(line: &[u8]) -> (r: Result<RenderResult, Error>)
    ensures
        result_view(r) == spec_decode_response(line@),
        r matches Ok(rr) ==> rr@.wf(),
{
    match parse_envelope_doc(line) {
        None => Err(Error::ProtocolError("malformed response from renderer".to_owned())),
        Some(env) => {
            if !env.ok {
                match &env.error {
                    None => Err(Error::RenderError("mermkit render failed".to_owned())),
                    Some(e) => {
                        proof {
                            assert(e.deep_view() =~= e@);
                        }
                        match string_from_utf8(e.as_slice()) {
                            None => Err(
                                Error::ProtocolError(
                                    "invalid text encoding in renderer response".to_owned(),
                                ),
                            ),
                            Some(t) => Err(Error::RenderError(t)),
                        }
                    },
                }
            } else {
                match &env.result {
                    None => Err(Error::RenderError("missing result".to_owned())),
                    Some(p) => finish_payload(p),
                }
            }
        },
    }
}

/// Decodes the whole output document of a one-shot invocation: the bare
/// result object, handled like a success payload.
pub fn decode_payload(doc: &[u8]) -> (r: Result<RenderResult, Error>)
    ensures
        result_view(r) == spec_decode_payload(doc@),
        r matches Ok(rr) ==> rr@.wf(),
{
    match parse_payload_doc(doc) {
        None => Err(Error::ProtocolError("malformed response from renderer".to_owned())),
        Some(p) => finish_payload(&p),
    }
}

pub open spec fn lit_head() -> Seq<u8> {
    seq![
        0x7Bu8, 0x22u8, 0x61u8, 0x63u8, 0x74u8, 0x69u8, 0x6Fu8, 0x6Eu8, 0x22u8, 0x3Au8, 0x22u8,
        0x72u8, 0x65u8, 0x6Eu8, 0x64u8, 0x65u8, 0x72u8, 0x22u8, 0x2Cu8, 0x22u8, 0x64u8, 0x69u8,
        0x61u8, 0x67u8, 0x72u8, 0x61u8, 0x6Du8, 0x22u8, 0x3Au8,
    ]
}

pub open spec fn lit_options() -> Seq<u8> {
    seq![
        0x2Cu8, 0x22u8, 0x6Fu8, 0x70u8, 0x74u8, 0x69u8, 0x6Fu8, 0x6Eu8, 0x73u8, 0x22u8, 0x3Au8,
        0x7Bu8, 0x22u8, 0x66u8, 0x6Fu8, 0x72u8, 0x6Du8, 0x61u8, 0x74u8, 0x22u8, 0x3Au8,
    ]
}

pub open spec fn lit_theme() -> Seq<u8> {
    seq![0x2Cu8, 0x22u8, 0x74u8, 0x68u8, 0x65u8, 0x6Du8, 0x65u8, 0x22u8, 0x3Au8]
}

pub open spec fn lit_engine() -> Seq<u8> {
    seq![0x2Cu8, 0x22u8, 0x65u8, 0x6Eu8, 0x67u8, 0x69u8, 0x6Eu8, 0x65u8, 0x22u8, 0x3Au8]
}

pub open spec fn lit_tail() -> Seq<u8> {
    seq![0x7Du8, 0x7Du8, 0x0Au8]
}

pub open spec fn opt_bytes(o: Option<&str>) -> Option<Seq<u8>> {
    match o {
        None => None,
        Some(s) => Some(s.spec_bytes()),
    }
}

/// The encoded request line for the given diagram and options: one JSON
/// object in fixed member order, terminated by the one newline.
pub open spec fn spec_request_line(
    d: Seq<u8>,
    f: Seq<u8>,
    t: Option<Seq<u8>>,
    e: Option<Seq<u8>>,
) -> Seq<u8> {
    lit_head() + quote_bytes(d) + lit_options() + quote_bytes(f) + (match t {
        None => Seq::empty(),
        Some(tv) => lit_theme() + quote_bytes(tv),
    }) + (match e {
        None => Seq::empty(),
        Some(ev) => lit_engine() + quote_bytes(ev),
    }) + lit_tail()
}

fn push_bytes(out: &mut Vec<u8>, s: &[u8])
    ensures
        final(out)@ == old(out)@ + s@,
{
    let mut k: usize = 0;
    while k < s.len()
        invariant
            0 <= k <= s@.len(),
            out@ == old(out)@ + s@.subrange(0, k as int),
        decreases s@.len() - k,
    {
        out.push(s[k]);
        proof {
            assert(old(out)@ + s@.subrange(0, k as int) + seq![s@[k as int]] =~= old(out)@
                + s@.subrange(0, k + 1));
        }
        k = k + 1;
    }
    proof {
        assert(s@.subrange(0, s@.len() as int) =~= s@);
    }
}

fn push_quoted(out: &mut Vec<u8>, s: &[u8])
    ensures
        final(out)@ == old(out)@ + quote_bytes(s@),
{
    out.push(0x22);
    let mut k: usize = 0;
    while k < s.len()
        invariant
            0 <= k <= s@.len(),
            out@ == old(out)@ + seq![0x22u8] + escape_bytes(s@.subrange(0, k as int)),
        decreases s@.len() - k,
    {
        let ghost pre = out@;
        let b = s[k];
        if b == 0x22 || b == 0x5C {
            out.push(0x5C);
            out.push(b);
        } else if b == 0x08 {
            out.push(0x5C);
            out.push(0x62);
        } else if b == 0x0C {
            out.push(0x5C);
            out.push(0x66);
        } else if b == 0x0A {
            out.push(0x5C);
            out.push(0x6E);
        } else if b == 0x0D {
            out.push(0x5C);
            out.push(0x72);
        } else if b == 0x09 {
            out.push(0x5C);
            out.push(0x74);
        } else if b < 0x20 {
            proof {
                assert(b >> 4u8 < 16 && b & 0x0Fu8 < 16) by (bit_vector);
            }
            out.push(0x5C);
            out.push(0x75);
            out.push(0x30);
            out.push(0x30);
            out.push(if (b >> 4u8) < 10 {
                0x30 + (b >> 4u8)
            } else {
                0x57 + (b >> 4u8)
            });
            out.push(if (b & 0x0F) < 10 {
                0x30 + (b & 0x0F)
            } else {
                0x57 + (b & 0x0F)
            });
        } else {
            out.push(b);
        }
        proof {
            assert(out@ =~= pre + esc_byte(s@[k as int]));
            lemma_escape_snoc(s@.subrange(0, k as int), s@[k as int]);
            assert(s@.subrange(0, k as int).push(s@[k as int]) =~= s@.subrange(0, k + 1));
            assert(out@ =~= old(out)@ + seq![0x22u8] + escape_bytes(s@.subrange(0, k + 1)));
        }
        k = k + 1;
    }
    out.push(0x22);
    proof {
        assert(s@.subrange(0, s@.len() as int) =~= s@);
        assert(out@ =~= old(out)@ + quote_bytes(s@));
    }
}

/// Encodes one render request as its wire line: the diagram text and the
/// option mapping (required `format`, optional `theme` and `engine`), as
/// exactly one JSON object followed by the one newline terminator.
pub fn encode_request(
    diagram: &str,
    format: &str,
    theme: Option<&str>,
    engine: Option<&str>,
) -> (r: Vec<u8>)
    ensures
        r@ == spec_request_line(
            diagram.spec_bytes(),
            format.spec_bytes(),
            opt_bytes(theme),
            opt_bytes(engine),
        ),
{
    let mut out: Vec<u8> = Vec::new();
    let head: [u8; 29] = [
        0x7B, 0x22, 0x61, 0x63, 0x74, 0x69, 0x6F, 0x6E, 0x22, 0x3A, 0x22, 0x72, 0x65, 0x6E, 0x64,
        0x65, 0x72, 0x22, 0x2C, 0x22, 0x64, 0x69, 0x61, 0x67, 0x72, 0x61, 0x6D, 0x22, 0x3A,
    ];
    push_bytes(&mut out, vstd::array::array_as_slice(&head));
    proof {
        assert(head@ =~= lit_head());
        assert(Seq::<u8>::empty() + lit_head() =~= lit_head());
    }
    push_quoted(&mut out, diagram.as_bytes());
    let opts: [u8; 21] = [
        0x2C, 0x22, 0x6F, 0x70, 0x74, 0x69, 0x6F, 0x6E, 0x73, 0x22, 0x3A, 0x7B, 0x22, 0x66, 0x6F,
        0x72, 0x6D, 0x61, 0x74, 0x22, 0x3A,
    ];
    push_bytes(&mut out, vstd::array::array_as_slice(&opts));
    proof {
        assert(opts@ =~= lit_options());
    }
    push_quoted(&mut out, format.as_bytes());
    match theme {
        None => {},
        Some(t) => {
            let th: [u8; 9] = [0x2C, 0x22, 0x74, 0x68, 0x65, 0x6D, 0x65, 0x22, 0x3A];
            push_bytes(&mut out, vstd::array::array_as_slice(&th));
            proof {
                assert(th@ =~= lit_theme());
            }
            push_quoted(&mut out, t.as_bytes());
        },
    }
    match engine {
        None => {},
        Some(e) => {
            let en: [u8; 10] = [0x2C, 0x22, 0x65, 0x6E, 0x67, 0x69, 0x6E, 0x65, 0x22, 0x3A];
            push_bytes(&mut out, vstd::array::array_as_slice(&en));
            proof {
                assert(en@ =~= lit_engine());
            }
            push_quoted(&mut out, e.as_bytes());
        },
    }
    let tl: [u8; 3] = [0x7D, 0x7D, 0x0A];
    push_bytes(&mut out, vstd::array::array_as_slice(&tl));
    proof {
        assert(tl@ =~= lit_tail());
        assert(out@ =~= spec_request_line(
            diagram.spec_bytes(),
            format.spec_bytes(),
            opt_bytes(theme),
            opt_bytes(engine),
        ));
    }
    out
}

/// True when the bytes of `lit` stand in `s` at `i`.
pub open spec fn prefix_at(s: Seq<u8>, i: int, lit: Seq<u8>) -> bool {
    0 <= i && i + lit.len() <= s.len() && s.subrange(i, i + lit.len()) == lit
}

/// True when a quoted string opens right after `lit` at `i`.
pub open spec fn key_then_quote(s: Seq<u8>, i: int, lit: Seq<u8>) -> bool {
    prefix_at(s, i, lit) && i + lit.len() < s.len() && s[i + lit.len() as int] == 0x22
}

/// How a conformant peer reads one request line back: the fixed members
/// in their documented order, each string value unescaped by the full
/// string grammar. Returns the diagram, the format, and the optional
/// theme and engine.
pub open spec fn spec_parse_request_tail(
    s: Seq<u8>,
    i: int,
    d: Seq<u8>,
    f: Seq<u8>,
    t: Option<Seq<u8>>,
) -> Option<(Seq<u8>, Seq<u8>, Option<Seq<u8>>, Option<Seq<u8>>)> {
    if key_then_quote(s, i, lit_engine()) {
        match spec_parse_string_body(s, i + lit_engine().len() as int + 1) {
            None => None,
            Some((ev, j)) => if j + 3 == s.len() && prefix_at(s, j, lit_tail()) {
                Some((d, f, t, Some(ev)))
            } else {
                None
            },
        }
    } else if i + 3 == s.len() && prefix_at(s, i, lit_tail()) {
        Some((d, f, t, None))
    } else {
        None
    }
}

pub open spec fn spec_parse_request_line(s: Seq<u8>) -> Option<
    (Seq<u8>, Seq<u8>, Option<Seq<u8>>, Option<Seq<u8>>),
> {
    if !key_then_quote(s, 0, lit_head()) {
        None
    } else {
        match spec_parse_string_body(s, lit_head().len() as int + 1) {
            None => None,
            Some((d, i1)) => {
                if !key_then_quote(s, i1, lit_options()) {
                    None
                } else {
                    match spec_parse_string_body(s, i1 + lit_options().len() as int + 1) {
                        None => None,
                        Some((f, i2)) => {
                            if key_then_quote(s, i2, lit_theme()) {
                                match spec_parse_string_body(s, i2 + lit_theme().len() as int
                                    + 1) {
                                    None => None,
                                    Some((tv, i3)) => spec_parse_request_tail(
                                        s,
                                        i3,
                                        d,
                                        f,
                                        Some(tv),
                                    ),
                                }
                            } else {
                                spec_parse_request_tail(s, i2, d, f, None)
                            }
                        },
                    }
                }
            },
        }
    }
}

proof fn lemma_peel(full: Seq<u8>, i: int, a: Seq<u8>, b: Seq<u8>)
    requires
        0 <= i <= full.len(),
        full.subrange(i, full.len() as int) == a + b,
    ensures
        i + a.len() <= full.len(),
        full.subrange(i, i + a.len()) == a,
        full.subrange(i + a.len(), full.len() as int) == b,
        prefix_at(full, i, a),
{
    let rem = full.subrange(i, full.len() as int);
    assert(full.subrange(i, i + a.len() as int) =~= rem.subrange(0, a.len() as int));
    assert(rem.subrange(0, a.len() as int) =~= a);
    assert(full.subrange(i + a.len() as int, full.len() as int) =~= rem.subrange(
        a.len() as int,
        rem.len() as int,
    ));
    assert(rem.subrange(a.len() as int, rem.len() as int) =~= b);
}

/// Law: unescaping inverts escaping. Wherever the escaped form of `s`
/// stands, followed by the closing quote and anything after it, the
/// string grammar reads back exactly `s` and stops just past the quote.
#[verifier::rlimit(100)]
pub proof fn lemma_parse_escaped(full: Seq<u8>, i: int, s: Seq<u8>, tail: Seq<u8>)
    requires
        0 <= i <= full.len(),
        full.subrange(i, full.len() as int) == escape_bytes(s) + seq![0x22u8] + tail,
    ensures
        spec_parse_string_body(full, i) == Some((s, i + escape_bytes(s).len() + 1)),
    decreases s.len(),
{
    let rem = full.subrange(i, full.len() as int);
    assert(rem.len() == full.len() - i);
    if s.len() == 0 {
        assert(escape_bytes(s) =~= Seq::<u8>::empty());
        assert(rem =~= seq![0x22u8] + tail);
        assert(rem[0] == 0x22);
        assert(full.subrange(i, full.len() as int)[0] == full[i + 0]);
        assert(full[i] == 0x22);
        assert(s =~= Seq::<u8>::empty());
        assert(spec_parse_string_body(full, i) == Some((Seq::<u8>::empty(), i + 1)));
    } else {
        let b = s[0];
        let eb = esc_byte(b);
        let s1 = s.drop_first();
        let k = eb.len() as int;
        assert(escape_bytes(s) == eb + escape_bytes(s1));
        assert(rem =~= eb + (escape_bytes(s1) + seq![0x22u8] + tail));
        lemma_peel(full, i, eb, escape_bytes(s1) + seq![0x22u8] + tail);
        assert forall|x: int| 0 <= x < k implies full[i + x] == eb[x] by {
            assert(full.subrange(i, i + k)[x] == full[i + x]);
        }
        lemma_parse_escaped(full, i + k, s1, tail);
        assert(seq![b] + s1 =~= s);
        if b == 0x22 || b == 0x5C || b == 0x08 || b == 0x0C || b == 0x0A || b == 0x0D || b
            == 0x09 {
            assert(full[i] == 0x5C);
            assert(unescape_simple(full[i + 1]) == Some(b));
            assert(spec_parse_string_body(full, i) == Some((s, i + escape_bytes(s).len() + 1)));
        } else if b < 0x20 {
            let hi = b >> 4u8;
            let lo = b & 0x0Fu8;
            assert(hi < 2 && lo < 16 && (hi * 16 + lo) == b) by (bit_vector)
                requires
                    b < 0x20 && hi == b >> 4u8 && lo == b & 0x0Fu8,
            ;
            assert(full[i] == 0x5C && full[i + 1] == 0x75);
            assert(full[i + 2] == 0x30 && full[i + 3] == 0x30);
            assert(full[i + 4] == hex_digit(hi) && full[i + 5] == hex_digit(lo));
            assert(hex_val(hex_digit(hi)) == Some(hi));
            assert(hex_val(hex_digit(lo)) == Some(lo));
            assert(i + 6 <= full.len());
            let cp = (0 * 0x1000 + 0 * 0x100 + hi * 0x10 + lo) as u32;
            assert(hex4(full, i + 2) == Some(cp));
            assert(cp == b as u32);
            assert(cp & 0x7F == cp) by (bit_vector)
                requires
                    cp < 0x20,
            ;
            assert(vstd::utf8::encode_scalar(cp) =~= seq![b]);
            assert(vstd::utf8::encode_scalar(cp) + s1 =~= s);
            assert(spec_parse_string_body(full, i) == Some((s, i + escape_bytes(s).len() + 1)));
        } else {
            assert(full[i] == b);
            assert(spec_parse_string_body(full, i) == Some((s, i + escape_bytes(s).len() + 1)));
        }
    }
}

proof fn lemma_quoted_at(full: Seq<u8>, i: int, s: Seq<u8>, tail: Seq<u8>)
    requires
        0 <= i <= full.len(),
        full.subrange(i, full.len() as int) == quote_bytes(s) + tail,
    ensures
        i < full.len(),
        full[i] == 0x22,
        spec_parse_string_body(full, i + 1) == Some((s, i + quote_bytes(s).len())),
        full.subrange(i + quote_bytes(s).len(), full.len() as int) == tail,
{
    let rem = full.subrange(i, full.len() as int);
    assert(rem =~= seq![0x22u8] + (escape_bytes(s) + seq![0x22u8] + tail));
    lemma_peel(full, i, seq![0x22u8], escape_bytes(s) + seq![0x22u8] + tail);
    assert(full.subrange(i, i + 1)[0] == full[i + 0]);
    assert(full[i] == 0x22);
    lemma_parse_escaped(full, i + 1, s, tail);
    assert(escape_bytes(s) + seq![0x22u8] + tail =~= (escape_bytes(s) + seq![0x22u8]) + tail);
    lemma_peel(full, i + 1, escape_bytes(s) + seq![0x22u8], tail);
    assert(i + 1 + (escape_bytes(s) + seq![0x22u8]).len() == i + quote_bytes(s).len());
}

proof fn lemma_request_tail(
    full: Seq<u8>,
    i: int,
    d: Seq<u8>,
    f: Seq<u8>,
    t: Option<Seq<u8>>,
    e: Option<Seq<u8>>,
)
    requires
        0 <= i <= full.len(),
        full.subrange(i, full.len() as int) == (match e {
            None => Seq::<u8>::empty(),
            Some(ev) => lit_engine() + quote_bytes(ev),
        }) + lit_tail(),
    ensures
        spec_parse_request_tail(full, i, d, f, t) == Some((d, f, t, e)),
{
    match e {
        None => {
            assert(full.subrange(i, full.len() as int) =~= lit_tail());
            assert(i + 3 == full.len());
            assert(prefix_at(full, i, lit_tail())) by {
                assert(full.subrange(i, i + 3) =~= lit_tail());
            }
            assert(!key_then_quote(full, i, lit_engine())) by {
                if prefix_at(full, i, lit_engine()) {
                    assert(full.subrange(i, i + lit_engine().len())[0] == full[i]);
                    assert(full.subrange(i, full.len() as int)[0] == full[i]);
                }
            }
        },
        Some(ev) => {
            assert(full.subrange(i, full.len() as int) =~= lit_engine() + (quote_bytes(ev)
                + lit_tail()));
            lemma_peel(full, i, lit_engine(), quote_bytes(ev) + lit_tail());
            let en = lit_engine().len() as int;
            lemma_quoted_at(full, i + en, ev, lit_tail());
            assert(key_then_quote(full, i, lit_engine()));
            let j = i + en + quote_bytes(ev).len();
            assert(j + 3 == full.len());
            assert(prefix_at(full, j, lit_tail())) by {
                assert(full.subrange(j, j + 3) =~= lit_tail());
            }
        },
    }
}

proof fn lemma_request_prefixes(full: Seq<u8>, d: Seq<u8>, f: Seq<u8>, rest2: Seq<u8>)
    requires
        full == lit_head() + (quote_bytes(d) + (lit_options() + (quote_bytes(f) + rest2))),
    ensures
        key_then_quote(full, 0, lit_head()),
        spec_parse_string_body(full, lit_head().len() as int + 1) == Some(
            (d, (lit_head().len() + quote_bytes(d).len()) as int),
        ),
        key_then_quote(full, (lit_head().len() + quote_bytes(d).len()) as int, lit_options()),
        spec_parse_string_body(
            full,
            (lit_head().len() + quote_bytes(d).len() + lit_options().len()) as int + 1,
        ) == Some(
            (
                f,
                (lit_head().len() + quote_bytes(d).len() + lit_options().len()
                    + quote_bytes(f).len()) as int,
            ),
        ),
        full.subrange(
            (lit_head().len() + quote_bytes(d).len() + lit_options().len() + quote_bytes(
                f,
            ).len()) as int,
            full.len() as int,
        ) == rest2,
{
    let rest1 = lit_options() + (quote_bytes(f) + rest2);
    assert(full.subrange(0, full.len() as int) =~= full);
    lemma_peel(full, 0, lit_head(), quote_bytes(d) + rest1);
    let h = lit_head().len() as int;
    lemma_quoted_at(full, h, d, rest1);
    let i1 = h + quote_bytes(d).len();
    lemma_peel(full, i1, lit_options(), quote_bytes(f) + rest2);
    let o = lit_options().len() as int;
    lemma_quoted_at(full, i1 + o, f, rest2);
}

/// Law: the codec round-trips. A conformant decode of an encoded
/// request line reconstructs the same diagram text and the same option
/// mapping, for every diagram and every option combination.
#[verifier::rlimit(100)]
pub proof fn lemma_request_round_trip(
    d: Seq<u8>,
    f: Seq<u8>,
    t: Option<Seq<u8>>,
    e: Option<Seq<u8>>,
)
    ensures
        spec_parse_request_line(spec_request_line(d, f, t, e)) == Some((d, f, t, e)),
{
    let full = spec_request_line(d, f, t, e);
    let topt = match t {
        None => Seq::<u8>::empty(),
        Some(tv) => lit_theme() + quote_bytes(tv),
    };
    let eopt = match e {
        None => Seq::<u8>::empty(),
        Some(ev) => lit_engine() + quote_bytes(ev),
    };
    let rest2 = topt + (eopt + lit_tail());
    assert(full =~= lit_head() + (quote_bytes(d) + (lit_options() + (quote_bytes(f) + rest2))));
    lemma_request_prefixes(full, d, f, rest2);
    let i2: int = (lit_head().len() + quote_bytes(d).len() + lit_options().len()
        + quote_bytes(f).len()) as int;
    match t {
        None => {
            assert(rest2 =~= eopt + lit_tail());
            lemma_request_tail(full, i2, d, f, None, e);
            assert(!key_then_quote(full, i2, lit_theme())) by {
                if prefix_at(full, i2, lit_theme()) {
                    assert(full.subrange(i2, i2 + lit_theme().len())[2] == full[i2 + 2]);
                    assert(full.subrange(i2, full.len() as int)[2] == full[i2 + 2]);
                }
            }
        },
        Some(tv) => {
            assert(rest2 =~= lit_theme() + (quote_bytes(tv) + (eopt + lit_tail())));
            lemma_peel(full, i2, lit_theme(), quote_bytes(tv) + (eopt + lit_tail()));
            let th = lit_theme().len() as int;
            lemma_quoted_at(full, i2 + th, tv, eopt + lit_tail());
            let i3 = i2 + th + quote_bytes(tv).len();
            lemma_request_tail(full, i3, d, f, Some(tv), e);
        },
    }
}

} // verus!
