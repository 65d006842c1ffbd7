//! The record writer: the resolved-resources record rendered as the JSON
//! array the record file holds, byte for byte.
//!
//! Strings are escaped as compact JSON serializers do: quote, backslash
//! and the named control characters take two-character escapes, any other
//! control byte a `\u00..` escape with lowercase hex digits, and all other
//! bytes pass through unchanged.
use vstd::prelude::*;
use vstd::string::*;
use vstd::utf8::encode_utf8;

use crate::resource_encoding::ResourceEncoding;
use crate::specifications::ResourceSpecification;

verus! {

/// A nibble as a lowercase hex digit, as a byte.
pub open spec fn spec_hex_digit_byte(n: u8) -> u8 {
    if n < 10 {
        (0x30 + n) as u8
    } else {
        (0x57 + n) as u8
    }
}

fn hex_digit_byte(n: u8) -> (r: u8)
    requires
        n < 16,
    ensures
        r == spec_hex_digit_byte(n),
{
    if n < 10 {
        0x30 + n
    } else {
        0x57 + n
    }
}

/// How one byte of string content is written inside a JSON string.
pub open spec fn spec_escaped_byte(b: u8) -> Seq<u8> {
    if b == 0x22 {
        seq![0x5c, 0x22]
    } else if b == 0x5c {
        seq![0x5c, 0x5c]
    } else if b == 0x08 {
        seq![0x5c, 0x62]
    } else if b == 0x09 {
        seq![0x5c, 0x74]
    } else if b == 0x0a {
        seq![0x5c, 0x6e]
    } else if b == 0x0c {
        seq![0x5c, 0x66]
    } else if b == 0x0d {
        seq![0x5c, 0x72]
    } else if b < 0x20 {
        seq![0x5c, 0x75, 0x30, 0x30, spec_hex_digit_byte(b / 16), spec_hex_digit_byte(b % 16)]
    } else {
        seq![b]
    }
}

/// A byte sequence escaped for a JSON string.
pub open spec fn spec_escape_bytes(s: Seq<u8>) -> Seq<u8>
    decreases s.len(),
{
    if s.len() == 0 {
        Seq::<u8>::empty()
    } else {
        spec_escaped_byte(s[0]) + spec_escape_bytes(s.drop_first())
    }
}

proof fn lemma_escape_bytes_snoc(s: Seq<u8>, b: u8)
    ensures
        spec_escape_bytes(s.push(b)) == spec_escape_bytes(s) + spec_escaped_byte(b),
    decreases s.len(),
{
    let p = s.push(b);
    if s.len() == 0 {
        assert(p[0] == b);
        assert(p.drop_first() =~= Seq::<u8>::empty());
        assert(spec_escape_bytes(p) == spec_escaped_byte(p[0]) + spec_escape_bytes(
            p.drop_first(),
        ));
        assert(spec_escape_bytes(Seq::<u8>::empty()) == Seq::<u8>::empty());
        assert(spec_escape_bytes(p) =~= spec_escape_bytes(s) + spec_escaped_byte(b));
    } else {
        assert(p[0] == s[0]);
        assert(p.drop_first() =~= s.drop_first().push(b));
        lemma_escape_bytes_snoc(s.drop_first(), b);
        assert(spec_escape_bytes(p) =~= spec_escape_bytes(s) + spec_escaped_byte(b));
    }
}

/// A string's content as it stands inside a JSON document: quoted and
/// escaped.
pub open spec fn spec_json_string(content: Seq<u8>) -> Seq<u8> {
    seq![0x22u8] + spec_escape_bytes(content) + seq![0x22u8]
}

/// Append the UTF-8 bytes of a string slice.
fn push_str_bytes(out: &mut Vec<u8>, s: &str)
    ensures
        final(out)@ == old(out)@ + s.spec_bytes(),
{
    let bytes = s.as_bytes();
    let n = bytes.len();
    let mut i: usize = 0;
    while i < n
        invariant
            i <= n,
            n == bytes@.len(),
            bytes@ == s.spec_bytes(),
            out@ == old(out)@ + bytes@.subrange(0, i as int),
        decreases n - i,
    {
        out.push(bytes[i]);
        proof {
            assert(bytes@.subrange(0, i + 1) =~= bytes@.subrange(0, i as int).push(
                bytes@[i as int],
            ));
            assert(out@ =~= old(out)@ + bytes@.subrange(0, i + 1));
        }
        i = i + 1;
    }
    proof {
        assert(bytes@.subrange(0, n as int) =~= bytes@);
    }
}

/// Append a string slice as a quoted, escaped JSON string.
fn push_json_string(out: &mut Vec<u8>, s: &str)
    ensures
        final(out)@ == old(out)@ + spec_json_string(s.spec_bytes()),
{
    out.push(0x22);
    let bytes = s.as_bytes();
    let n = bytes.len();
    let mut i: usize = 0;
    while i < n
        invariant
            i <= n,
            n == bytes@.len(),
            bytes@ == s.spec_bytes(),
            out@ == old(out)@ + seq![0x22u8] + spec_escape_bytes(bytes@.subrange(0, i as int)),
        decreases n - i,
    {
        let b = bytes[i];
        if b == 0x22 {
            out.push(0x5c);
            out.push(0x22);
        } else if b == 0x5c {
            out.push(0x5c);
            out.push(0x5c);
        } else if b == 0x08 {
            out.push(0x5c);
            out.push(0x62);
        } else if b == 0x09 {
            out.push(0x5c);
            out.push(0x74);
        } else if b == 0x0a {
            out.push(0x5c);
            out.push(0x6e);
        } else if b == 0x0c {
            out.push(0x5c);
            out.push(0x66);
        } else if b == 0x0d {
            out.push(0x5c);
            out.push(0x72);
        } else if b < 0x20 {
            out.push(0x5c);
            out.push(0x75);
            out.push(0x30);
            out.push(0x30);
            out.push(hex_digit_byte(b / 16));
            out.push(hex_digit_byte(b % 16));
        } else {
            out.push(b);
        }
        proof {
            lemma_escape_bytes_snoc(bytes@.subrange(0, i as int), bytes@[i as int]);
            assert(bytes@.subrange(0, i + 1) =~= bytes@.subrange(0, i as int).push(
                bytes@[i as int],
            ));
            assert(out@ =~= old(out)@ + seq![0x22u8] + spec_escape_bytes(
                bytes@.subrange(0, i + 1),
            ));
        }
        i = i + 1;
    }
    out.push(0x22);
    proof {
        assert(bytes@.subrange(0, n as int) =~= bytes@);
        assert(out@ =~= old(out)@ + spec_json_string(s.spec_bytes()));
    }
}

/// The encoding tag's text, as the record writes it.
pub open spec fn spec_encoding_text(e: ResourceEncoding) -> Seq<u8> {
    match e {
        ResourceEncoding::Txt => "Txt".spec_bytes(),
        ResourceEncoding::Bin => "Bin".spec_bytes(),
    }
}

/// One resolved specification as a JSON object, fields in declaration
/// order.
pub open spec fn spec_record_entry(s: ResourceSpecification) -> Seq<u8> {
    "{\"declaring_crate_name\":".spec_bytes() + spec_json_string(
        encode_utf8(s.declaring_crate_name@),
    ) + ",\"declaring_crate_version\":".spec_bytes() + spec_json_string(
        encode_utf8(s.declaring_crate_version@),
    ) + ",\"encoding\":".spec_bytes() + spec_json_string(spec_encoding_text(s.encoding))
        + ",\"full_crate_path\":".spec_bytes() + spec_json_string(
        encode_utf8(s.full_crate_path@),
    ) + ",\"output_path\":".spec_bytes() + spec_json_string(encode_utf8(s.output_path@))
        + ",\"resource_name\":".spec_bytes() + spec_json_string(
        encode_utf8(s.resource_name@),
    ) + "}".spec_bytes()
}

/// The comma-separated entries of the record.
pub open spec fn spec_record_list(entries: Seq<ResourceSpecification>) -> Seq<u8>
    decreases entries.len(),
{
    if entries.len() == 0 {
        Seq::<u8>::empty()
    } else if entries.len() == 1 {
        spec_record_entry(entries[0])
    } else {
        spec_record_entry(entries[0]) + seq![0x2cu8] + spec_record_list(entries.drop_first())
    }
}

/// The whole record: a JSON array of the resolved specifications.
pub open spec fn spec_record_json(entries: Seq<ResourceSpecification>) -> Seq<u8> {
    seq![0x5bu8] + spec_record_list(entries) + seq![0x5du8]
}

proof fn lemma_record_list_snoc(entries: Seq<ResourceSpecification>, s: ResourceSpecification)
    ensures
        spec_record_list(entries.push(s)) == if entries.len() == 0 {
            spec_record_entry(s)
        } else {
            spec_record_list(entries) + seq![0x2cu8] + spec_record_entry(s)
        },
    decreases entries.len(),
{
    let p = entries.push(s);
    if entries.len() == 0 {
        assert(p[0] == s);
        assert(spec_record_list(p) == spec_record_entry(s));
    } else {
        assert(p[0] == entries[0]);
        assert(p.drop_first() =~= entries.drop_first().push(s));
        lemma_record_list_snoc(entries.drop_first(), s);
        if entries.len() == 1 {
            assert(spec_record_list(p) =~= spec_record_list(entries) + seq![0x2cu8]
                + spec_record_entry(s));
        } else {
            assert(spec_record_list(p) =~= spec_record_list(entries) + seq![0x2cu8]
                + spec_record_entry(s));
        }
    }
}

#[verifier::rlimit(100)]
fn push_record_entry(out: &mut Vec<u8>, s: &ResourceSpecification)
    ensures
        final(out)@ == old(out)@ + spec_record_entry(*s),
{
    push_str_bytes(out, "{\"declaring_crate_name\":");
    push_json_string(out, s.declaring_crate_name.as_str());
    push_str_bytes(out, ",\"declaring_crate_version\":");
    push_json_string(out, s.declaring_crate_version.as_str());
    push_str_bytes(out, ",\"encoding\":");
    match s.encoding {
        ResourceEncoding::Txt => push_json_string(out, "Txt"),
        ResourceEncoding::Bin => push_json_string(out, "Bin"),
    }
    push_str_bytes(out, ",\"full_crate_path\":");
    push_json_string(out, s.full_crate_path.as_str());
    push_str_bytes(out, ",\"output_path\":");
    push_json_string(out, s.output_path.as_str());
    push_str_bytes(out, ",\"resource_name\":");
    push_json_string(out, s.resource_name.as_str());
    push_str_bytes(out, "}");
    proof {
        assert(out@ =~= old(out)@ + spec_record_entry(*s));
    }
}

/// Render the resolved-resources record: the JSON array of the resolved
/// specifications, in synchronization order, as the record file holds it.
pub fn render_resolved_record(resolved: &Vec<ResourceSpecification>) -> (r: Vec<u8>)
    ensures
        r@ == spec_record_json(resolved@),
{
    let mut out: Vec<u8> = Vec::new();
    out.push(0x5b);
    let n = resolved.len();
    let mut i: usize = 0;
    while i < n
        invariant
            i <= n,
            n == resolved@.len(),
            out@ == seq![0x5bu8] + spec_record_list(resolved@.subrange(0, i as int)),
        decreases n - i,
    {
        if i > 0 {
            out.push(0x2c);
        }
        push_record_entry(&mut out, &resolved[i]);
        proof {
            lemma_record_list_snoc(resolved@.subrange(0, i as int), resolved@[i as int]);
            assert(resolved@.subrange(0, i + 1) =~= resolved@.subrange(0, i as int).push(
                resolved@[i as int],
            ));
            assert(out@ =~= seq![0x5bu8] + spec_record_list(resolved@.subrange(0, i + 1)));
        }
        i = i + 1;
    }
    out.push(0x5d);
    proof {
        assert(resolved@.subrange(0, n as int) =~= resolved@);
        assert(out@ =~= spec_record_json(resolved@));
    }
    out
}

} // verus!
