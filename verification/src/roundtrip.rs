//! The header codec round trip: parsing a serialized record recovers
//! every field of the record.

use vstd::prelude::*;

verus! {

use vstd::utf8::{encode_utf8, encode_utf8_decode_utf8, encode_utf8_valid_utf8};

use crate::decimal::dec_chars;
use crate::encode::{is_encoded_char, lemma_pd_pe_bytes, lemma_pe_bytes_chars, pe};
use crate::error::ErrorKind;
use crate::header::{opt_seg, render, seg, sep_seg, HeaderFields};
use crate::parse::{
    acc_apply, decode_value, empty_acc, find_idx, parse_fields, parse_header, parse_segment,
    split_commas, trim, trim_back, trim_front, AccFields, FieldVal,
};

/// No character of the sequence is a comma.
pub open spec fn comma_free(s: Seq<char>) -> bool {
    forall|j: int| 0 <= j < s.len() ==> s[j] != ','
}

/// Encoded characters are none of the wire's structural characters.
proof fn lemma_encoded_char_clean(c: char)
    requires
        is_encoded_char(c),
    ensures
        c != ',' && c != '"' && c != '=' && c != ' ' && c != '\t',
{
    assert(',' as u8 == 44 && '"' as u8 == 34 && '=' as u8 == 61 && ' ' as u8 == 32 && '\t' as u8
        == 9);
}

/// The encoded form of any value has no comma, quote, equals sign or
/// space.
proof fn lemma_pe_clean(value: Seq<char>)
    ensures
        forall|j: int|
            0 <= j < pe(value).len() ==> (#[trigger] pe(value)[j]) != ',' && pe(value)[j] != '"'
                && pe(value)[j] != '=' && pe(value)[j] != ' ' && pe(value)[j] != '\t',
{
    lemma_pe_bytes_chars(encode_utf8(value));
    assert forall|j: int| 0 <= j < pe(value).len() implies (#[trigger] pe(value)[j]) != ','
        && pe(value)[j] != '"' && pe(value)[j] != '=' && pe(value)[j] != ' ' && pe(value)[j]
        != '\t' by {
        lemma_encoded_char_clean(pe(value)[j]);
    }
}

/// Splitting distributes over an explicit comma.
proof fn lemma_split_concat(a: Seq<char>, b: Seq<char>)
    ensures
        split_commas(a + seq![','] + b) == split_commas(a) + split_commas(b),
    decreases a.len(),
{
    crate::parse::lemma_split_commas_len(b);
    if a.len() == 0 {
        assert(a + seq![','] + b =~= seq![','] + b);
        assert((seq![','] + b)[0] == ',');
        assert((seq![','] + b).drop_first() =~= b);
        assert(split_commas(a) =~= seq![Seq::<char>::empty()]);
        assert(split_commas(a + seq![','] + b) =~~= split_commas(a) + split_commas(b));
    } else {
        let rest = a.drop_first();
        lemma_split_concat(rest, b);
        crate::parse::lemma_split_commas_len(rest);
        let w = a + seq![','] + b;
        assert(w[0] == a[0]);
        assert(w.drop_first() =~= rest + seq![','] + b);
        if a[0] == ',' {
            assert(split_commas(w) =~~= split_commas(a) + split_commas(b));
        } else {
            let r = split_commas(rest + seq![','] + b);
            assert(r == split_commas(rest) + split_commas(b));
            assert(r[0] == split_commas(rest)[0]);
            assert(r.drop_first() =~= split_commas(rest).drop_first() + split_commas(b));
            assert(split_commas(w) =~~= split_commas(a) + split_commas(b));
        }
    }
}

/// Pulls the first comma-free segment off a `, `-separated text.
proof fn lemma_split_piece(x: Seq<char>, s: Seq<char>, t: Seq<char>)
    requires
        comma_free(x),
    ensures
        split_commas(x + (seq![',', ' '] + s + t)) == seq![x] + split_commas(
            (seq![' '] + s) + t,
        ),
{
    assert(x + (seq![',', ' '] + s + t) =~= x + seq![','] + ((seq![' '] + s) + t));
    lemma_split_concat(x, (seq![' '] + s) + t);
    crate::parse::lemma_split_commas_nocomma(x);
}

/// The field a segment text stands for.
pub open spec fn segment_case(name: Seq<char>, value: Seq<char>, f: FieldVal) -> bool {
    match f {
        FieldVal::ConsumerKey(v) => name == "oauth_consumer_key"@ && v == value,
        FieldVal::Nonce(v) => name == "oauth_nonce"@ && v == value,
        FieldVal::Signature(v) => name == "oauth_signature"@ && v == value,
        FieldVal::Stamp(ts) => name == "oauth_timestamp"@ && value == dec_chars(ts),
        FieldVal::Token(v) => name == "oauth_token"@ && v == value,
        FieldVal::Callback(v) => name == "oauth_callback"@ && v == value,
        FieldVal::Verifier(v) => name == "oauth_verifier"@ && v == value,
        FieldVal::Meta => name == "oauth_signature_method"@ || name == "oauth_version"@,
    }
}

proof fn lemma_find_idx_at(s: Seq<char>, c: char, i: int)
    requires
        0 <= i < s.len(),
        s[i] == c,
        forall|j: int| 0 <= j < i ==> s[j] != c,
    ensures
        find_idx(s, c) == i,
{
    crate::parse::lemma_find_idx(s, c);
    let f = find_idx(s, c);
    if f < i {
        assert(s[f] == c);
    }
    if f > i {
        assert(s[i] != c);
    }
}

proof fn lemma_trim_space(s: Seq<char>)
    ensures
        trim_front(seq![' '] + s) == trim_front(s),
{
    let w = seq![' '] + s;
    assert(w[0] == ' ');
    assert(w.drop_first() =~= s);
}

/// A serialized field segment, with or without a leading space, parses
/// to exactly its field.
#[verifier::rlimit(100)]
#[verifier::spinoff_prover]
proof fn lemma_parse_segment_ok(pre_space: bool, name: Seq<char>, value: Seq<char>, f: FieldVal)
    requires
        segment_case(name, value, f),
    ensures
        parse_segment(
            if pre_space {
                seq![' '] + seg(name, value)
            } else {
                seg(name, value)
            },
        ) == Ok::<FieldVal, ErrorKind>(f),
{
    reveal_strlit("oauth_consumer_key");
    reveal_strlit("oauth_nonce");
    reveal_strlit("oauth_signature");
    reveal_strlit("oauth_signature_method");
    reveal_strlit("oauth_timestamp");
    reveal_strlit("oauth_token");
    reveal_strlit("oauth_version");
    reveal_strlit("oauth_callback");
    reveal_strlit("oauth_verifier");
    let sg = seg(name, value);
    let n = name.len() as int;
    assert(name.len() >= 1 && name[0] == 'o' && (forall|j: int|
        0 <= j < name.len() ==> #[trigger] name[j] != '=' && name[j] != ' ' && name[j] != '\t'));
    assert(sg[0] == name[0]);
    if pre_space {
        lemma_trim_space(sg);
    }
    assert(trim_front(sg) == sg);
    assert(sg.last() == '"');
    assert(trim_back(sg) == sg);
    let t = sg;
    assert(trim(if pre_space {
        seq![' '] + sg
    } else {
        sg
    }) == t);
    assert(t[n] == '=');
    assert forall|j: int| 0 <= j < n implies t[j] != '=' by {
        assert(t[j] == name[j]);
    }
    lemma_find_idx_at(t, '=', n);
    assert(t.take(n) =~= name);
    let raw = t.skip(n + 1);
    assert(raw =~= seq!['"'] + pe(value) + seq!['"']);
    assert(raw[0] == '"' && raw.last() == '"' && raw.len() >= 2);
    assert(raw.subrange(1, raw.len() - 1) =~= pe(value));
    lemma_pd_pe_bytes(encode_utf8(value), false);
    encode_utf8_valid_utf8(value);
    encode_utf8_decode_utf8(value);
    assert(decode_value(raw) == Ok::<Seq<char>, ErrorKind>(value));
    let input = if pre_space {
        seq![' '] + sg
    } else {
        sg
    };
    assert(trim(input) == t);
    match f {
        FieldVal::ConsumerKey(v) => {
            assert(parse_segment(input) == Ok::<FieldVal, ErrorKind>(FieldVal::ConsumerKey(value)));
        },
        FieldVal::Nonce(v) => {
            assert(parse_segment(input) == Ok::<FieldVal, ErrorKind>(FieldVal::Nonce(value)));
        },
        FieldVal::Signature(v) => {
            assert(parse_segment(input) == Ok::<FieldVal, ErrorKind>(FieldVal::Signature(value)));
        },
        FieldVal::Stamp(ts) => {
            crate::decimal::lemma_parse_dec_chars(ts);
            assert("oauth_timestamp"@[6] != "oauth_signature"@[6]);
            assert(parse_segment(input) == Ok::<FieldVal, ErrorKind>(FieldVal::Stamp(ts)));
        },
        FieldVal::Token(v) => {
            assert("oauth_token"@[6] != "oauth_nonce"@[6]);
            assert(parse_segment(input) == Ok::<FieldVal, ErrorKind>(FieldVal::Token(value)));
        },
        FieldVal::Callback(v) => {
            assert(parse_segment(input) == Ok::<FieldVal, ErrorKind>(FieldVal::Callback(value)));
        },
        FieldVal::Verifier(v) => {
            assert("oauth_verifier"@[6] != "oauth_callback"@[6]);
            assert(parse_segment(input) == Ok::<FieldVal, ErrorKind>(FieldVal::Verifier(value)));
        },
        FieldVal::Meta => {
            assert(parse_segment(input) == Ok::<FieldVal, ErrorKind>(FieldVal::Meta));
        },
    }
}

/// A serialized segment has none of the split characters.
proof fn lemma_seg_comma_free(name: Seq<char>, value: Seq<char>)
    requires
        comma_free(name),
    ensures
        comma_free(seg(name, value)),
        comma_free(seq![' '] + seg(name, value)),
{
    lemma_pe_clean(value);
    let sg = seg(name, value);
    assert forall|j: int| 0 <= j < sg.len() implies sg[j] != ',' by {
        if j < name.len() {
            assert(sg[j] == name[j]);
        } else if j == name.len() {
            assert(sg[j] == '=');
        } else if j == name.len() + 1 {
            assert(sg[j] == '"');
        } else if j < name.len() + 2 + pe(value).len() {
            assert(sg[j] == pe(value)[j - name.len() - 2]);
        } else {
            assert(sg[j] == '"');
        }
    }
    let w = seq![' '] + sg;
    assert forall|j: int| 0 <= j < w.len() implies w[j] != ',' by {
        if j >= 1 {
            assert(w[j] == sg[j - 1]);
        }
    }
}

/// Consumes the first segment of the remaining text when more segments
/// follow.
proof fn lemma_step_mid(
    pre: bool,
    name: Seq<char>,
    value: Seq<char>,
    f: FieldVal,
    s_next: Seq<char>,
    t_next: Seq<char>,
    acc: AccFields,
)
    requires
        segment_case(name, value, f),
        comma_free(name),
    ensures
        parse_fields(
            split_commas(
                (if pre {
                    seq![' '] + seg(name, value)
                } else {
                    seg(name, value)
                }) + (seq![',', ' '] + s_next + t_next),
            ),
            acc,
        ) == parse_fields(split_commas((seq![' '] + s_next) + t_next), acc_apply(acc, f)),
{
    let y = if pre {
        seq![' '] + seg(name, value)
    } else {
        seg(name, value)
    };
    lemma_seg_comma_free(name, value);
    lemma_split_piece(y, s_next, t_next);
    lemma_parse_segment_ok(pre, name, value, f);
    let rest = split_commas((seq![' '] + s_next) + t_next);
    assert((seq![y] + rest)[0] == y);
    assert((seq![y] + rest).drop_first() =~= rest);
}

/// Consumes the last segment of the remaining text.
proof fn lemma_step_last(pre: bool, name: Seq<char>, value: Seq<char>, f: FieldVal, acc: AccFields)
    requires
        segment_case(name, value, f),
        comma_free(name),
    ensures
        parse_fields(
            split_commas(
                if pre {
                    seq![' '] + seg(name, value)
                } else {
                    seg(name, value)
                },
            ),
            acc,
        ) == Ok::<AccFields, ErrorKind>(acc_apply(acc, f)),
{
    let y = if pre {
        seq![' '] + seg(name, value)
    } else {
        seg(name, value)
    };
    lemma_seg_comma_free(name, value);
    crate::parse::lemma_split_commas_nocomma(y);
    lemma_parse_segment_ok(pre, name, value, f);
    assert((seq![y])[0] == y);
    assert((seq![y]).drop_first() =~= Seq::<Seq<char>>::empty());
    assert(parse_fields(Seq::<Seq<char>>::empty(), acc_apply(acc, f)) == Ok::<
        AccFields,
        ErrorKind,
    >(acc_apply(acc, f)));
}

/// Each serialized field name is comma-free.
proof fn lemma_names_comma_free()
    ensures
        comma_free("oauth_consumer_key"@),
        comma_free("oauth_nonce"@),
        comma_free("oauth_signature"@),
        comma_free("oauth_signature_method"@),
        comma_free("oauth_timestamp"@),
        comma_free("oauth_token"@),
        comma_free("oauth_version"@),
        comma_free("oauth_callback"@),
        comma_free("oauth_verifier"@),
{
    reveal_strlit("oauth_consumer_key");
    reveal_strlit("oauth_nonce");
    reveal_strlit("oauth_signature");
    reveal_strlit("oauth_signature_method");
    reveal_strlit("oauth_timestamp");
    reveal_strlit("oauth_token");
    reveal_strlit("oauth_version");
    reveal_strlit("oauth_callback");
    reveal_strlit("oauth_verifier");
}

/// The round trip of the header codec: parsing the wire form of any
/// signed record recovers exactly the record, whatever its field values.
#[verifier::rlimit(100)]
#[verifier::spinoff_prover]
pub proof fn lemma_parse_render(h: HeaderFields)
    requires
        h.signature is Some,
    ensures
        parse_header(render(h)) == Ok::<HeaderFields, ErrorKind>(h),
{
    reveal_strlit("OAuth ");
    lemma_names_comma_free();
    let r = render(h);
    let s_ck = seg("oauth_consumer_key"@, h.consumer_key);
    let s_n = seg("oauth_nonce"@, h.nonce);
    let s_sig = seg("oauth_signature"@, h.signature->0);
    let s_m = seg("oauth_signature_method"@, "HMAC-SHA1"@);
    let s_ts = seg("oauth_timestamp"@, dec_chars(h.timestamp));
    let s_tok = seg("oauth_token"@, h.token->0);
    let s_v = seg("oauth_version"@, "1.0"@);
    let s_cb = seg("oauth_callback"@, h.callback->0);
    let s_vf = seg("oauth_verifier"@, h.verifier->0);
    let t_vf = opt_seg("oauth_verifier"@, h.verifier);
    let t_cb = opt_seg("oauth_callback"@, h.callback) + t_vf;
    let t_v = sep_seg("oauth_version"@, "1.0"@) + t_cb;
    let t_tok = opt_seg("oauth_token"@, h.token) + t_v;
    let t_ts = sep_seg("oauth_timestamp"@, dec_chars(h.timestamp)) + t_tok;
    let t_m = sep_seg("oauth_signature_method"@, "HMAC-SHA1"@) + t_ts;
    let t_sig = sep_seg("oauth_signature"@, h.signature->0) + t_m;
    let t_n = sep_seg("oauth_nonce"@, h.nonce) + t_sig;
    assert(r =~= "OAuth "@ + (s_ck + t_n));
    assert(r.len() >= 6);
    assert(r.take(6) =~= "OAuth "@);
    assert(r.skip(6) =~= s_ck + t_n);
    let a0 = empty_acc();
    // consumer key
    assert(s_ck + t_n =~= s_ck + (seq![',', ' '] + s_n + t_sig));
    lemma_step_mid(
        false,
        "oauth_consumer_key"@,
        h.consumer_key,
        FieldVal::ConsumerKey(h.consumer_key),
        s_n,
        t_sig,
        a0,
    );
    let a1 = acc_apply(a0, FieldVal::ConsumerKey(h.consumer_key));
    // nonce
    assert((seq![' '] + s_n) + t_sig =~= (seq![' '] + s_n) + (seq![',', ' '] + s_sig + t_m));
    lemma_step_mid(true, "oauth_nonce"@, h.nonce, FieldVal::Nonce(h.nonce), s_sig, t_m, a1);
    let a2 = acc_apply(a1, FieldVal::Nonce(h.nonce));
    // signature
    assert((seq![' '] + s_sig) + t_m =~= (seq![' '] + s_sig) + (seq![',', ' '] + s_m + t_ts));
    lemma_step_mid(
        true,
        "oauth_signature"@,
        h.signature->0,
        FieldVal::Signature(h.signature->0),
        s_m,
        t_ts,
        a2,
    );
    let a3 = acc_apply(a2, FieldVal::Signature(h.signature->0));
    // signature method
    assert((seq![' '] + s_m) + t_ts =~= (seq![' '] + s_m) + (seq![',', ' '] + s_ts + t_tok));
    lemma_step_mid(true, "oauth_signature_method"@, "HMAC-SHA1"@, FieldVal::Meta, s_ts, t_tok, a3);
    let a4 = acc_apply(a3, FieldVal::Meta);
    // timestamp, then the optional token
    let a6 = AccFields {
        consumer_key: Some(h.consumer_key),
        nonce: Some(h.nonce),
        signature: Some(h.signature->0),
        timestamp: Some(h.timestamp),
        token: h.token,
        callback: None,
        verifier: None,
    };
    if h.token is Some {
        assert((seq![' '] + s_ts) + t_tok =~= (seq![' '] + s_ts) + (seq![',', ' '] + s_tok
            + t_v));
        lemma_step_mid(
            true,
            "oauth_timestamp"@,
            dec_chars(h.timestamp),
            FieldVal::Stamp(h.timestamp),
            s_tok,
            t_v,
            a4,
        );
        let a5 = acc_apply(a4, FieldVal::Stamp(h.timestamp));
        assert((seq![' '] + s_tok) + t_v =~= (seq![' '] + s_tok) + (seq![',', ' '] + s_v + t_cb));
        lemma_step_mid(true, "oauth_token"@, h.token->0, FieldVal::Token(h.token->0), s_v, t_cb, a5);
        assert(acc_apply(a5, FieldVal::Token(h.token->0)) == a6);
    } else {
        assert((seq![' '] + s_ts) + t_tok =~= (seq![' '] + s_ts) + (seq![',', ' '] + s_v + t_cb));
        lemma_step_mid(
            true,
            "oauth_timestamp"@,
            dec_chars(h.timestamp),
            FieldVal::Stamp(h.timestamp),
            s_v,
            t_cb,
            a4,
        );
        assert(acc_apply(a4, FieldVal::Stamp(h.timestamp)) == a6);
    }
    // version, then the optional callback and verifier
    let af = AccFields { callback: h.callback, verifier: h.verifier, ..a6 };
    if h.callback is Some {
        assert((seq![' '] + s_v) + t_cb =~= (seq![' '] + s_v) + (seq![',', ' '] + s_cb + t_vf));
        lemma_step_mid(true, "oauth_version"@, "1.0"@, FieldVal::Meta, s_cb, t_vf, a6);
        if h.verifier is Some {
            assert((seq![' '] + s_cb) + t_vf =~= (seq![' '] + s_cb) + (seq![',', ' '] + s_vf
                + Seq::<char>::empty()));
            lemma_step_mid(
                true,
                "oauth_callback"@,
                h.callback->0,
                FieldVal::Callback(h.callback->0),
                s_vf,
                Seq::<char>::empty(),
                a6,
            );
            let a7 = acc_apply(a6, FieldVal::Callback(h.callback->0));
            assert((seq![' '] + s_vf) + Seq::<char>::empty() =~= seq![' '] + s_vf);
            lemma_step_last(
                true,
                "oauth_verifier"@,
                h.verifier->0,
                FieldVal::Verifier(h.verifier->0),
                a7,
            );
            assert(acc_apply(a7, FieldVal::Verifier(h.verifier->0)) == af);
        } else {
            assert((seq![' '] + s_cb) + t_vf =~= seq![' '] + s_cb);
            lemma_step_last(
                true,
                "oauth_callback"@,
                h.callback->0,
                FieldVal::Callback(h.callback->0),
                a6,
            );
            assert(acc_apply(a6, FieldVal::Callback(h.callback->0)) == af);
        }
    } else {
        if h.verifier is Some {
            assert((seq![' '] + s_v) + t_cb =~= (seq![' '] + s_v) + (seq![',', ' '] + s_vf
                + Seq::<char>::empty()));
            lemma_step_mid(true, "oauth_version"@, "1.0"@, FieldVal::Meta, s_vf, Seq::<char>::empty(), a6);
            assert((seq![' '] + s_vf) + Seq::<char>::empty() =~= seq![' '] + s_vf);
            lemma_step_last(
                true,
                "oauth_verifier"@,
                h.verifier->0,
                FieldVal::Verifier(h.verifier->0),
                a6,
            );
            assert(acc_apply(a6, FieldVal::Verifier(h.verifier->0)) == af);
        } else {
            assert((seq![' '] + s_v) + t_cb =~= seq![' '] + s_v);
            lemma_step_last(true, "oauth_version"@, "1.0"@, FieldVal::Meta, a6);
            assert(acc_apply(a6, FieldVal::Meta) == af);
        }
    }
    assert(parse_fields(split_commas(r.skip(6)), a0) == Ok::<AccFields, ErrorKind>(af));
    assert(crate::parse::finalize(af) == Ok::<HeaderFields, ErrorKind>(h));
}

} // verus!
