use vstd::prelude::*;
use vstd::utf8::encode_utf8;

use crate::hmac::hex_digit;

verus! {

/// The metadata stored for an issued secret-id. Times are seconds since the
/// Unix epoch; `secret_id_ttl` is in seconds, and zero means no expiry.
#[derive(Debug, Clone)]
pub struct SecretIdStorageEntry {
    /// Public identifier standing in for the secret-id.
    pub secret_id_accessor: String,
    /// Remaining logins; zero means unlimited.
    pub secret_id_num_uses: i64,
    pub secret_id_ttl: u64,
    pub creation_time: u64,
    pub expiration_time: u64,
    pub last_updated_time: u64,
    /// Caller-supplied tags, as key/value pairs with distinct keys (see `wf`).
    pub metadata: Vec<(String, String)>,
    /// Source-address restriction on the use of the secret-id.
    pub cidr_list: Vec<String>,
    /// Source-address restriction on tokens issued from the secret-id.
    pub token_cidr_list: Vec<String>,
}

/// The record that maps an accessor to the digest of its secret-id.
#[derive(Debug, Clone)]
pub struct SecretIdAccessorStorageEntry {
    pub secret_id_hmac: String,
}

impl SecretIdStorageEntry {
    /// The record is well formed: no two metadata pairs share a key.
    pub open spec fn wf(&self) -> bool {
        forall|i: int, j: int|
            0 <= i < j < self.metadata@.len() ==> (#[trigger] self.metadata@[i]).0@ != (
            #[trigger] self.metadata@[j]).0@
    }
}

impl Default for SecretIdStorageEntry {
    fn default() -> (r: SecretIdStorageEntry)
        ensures
            r.secret_id_accessor@.len() == 0,
            r.secret_id_num_uses == 0,
            r.secret_id_ttl == 0,
            r.creation_time == 0,
            r.expiration_time == 0,
            r.last_updated_time == 0,
            r.metadata@.len() == 0,
            r.cidr_list@.len() == 0,
            r.token_cidr_list@.len() == 0,
            r.wf(),
    {
        SecretIdStorageEntry {
            secret_id_accessor: String::new(),
            secret_id_num_uses: 0,
            secret_id_ttl: 0,
            creation_time: 0,
            expiration_time: 0,
            last_updated_time: 0,
            metadata: Vec::new(),
            cidr_list: Vec::new(),
            token_cidr_list: Vec::new(),
        }
    }
}

/// JSON text of one character inside a string literal: `"` and `\` take a
/// backslash, backspace, tab, line feed, form feed and carriage return take
/// their short escapes, other control characters are written `\u00xx` in
/// lower-case hexadecimal, and any other character stands as it is.
pub open spec fn json_escape_char(c: char) -> Seq<char> {
    if c == '"' {
        seq!['\\', '"']
    } else if c == '\\' {
        seq!['\\', '\\']
    } else if c == '\u{8}' {
        seq!['\\', 'b']
    } else if c == '\t' {
        seq!['\\', 't']
    } else if c == '\n' {
        seq!['\\', 'n']
    } else if c == '\u{c}' {
        seq!['\\', 'f']
    } else if c == '\r' {
        seq!['\\', 'r']
    } else if (c as u32) < 0x20 {
        seq!['\\', 'u', '0', '0', hex_digit(((c as u32) / 16) as u8), hex_digit(((c as u32) % 16) as u8)]
    } else {
        seq![c]
    }
}

/// The characters of a string, each escaped for a JSON string literal.
pub open spec fn json_escaped(s: Seq<char>) -> Seq<char>
    decreases s.len(),
{
    if s.len() == 0 {
        Seq::empty()
    } else {
        json_escape_char(s[0]) + json_escaped(s.drop_first())
    }
}

/// JSON text of a string: the string escaped, between double quotes.
pub open spec fn json_string_of(s: Seq<char>) -> Seq<char> {
    seq!['"'] + json_escaped(s) + seq!['"']
}

/// Relies on `serde_json::to_string` on a `str`: the string between double
/// quotes, escaped by its table of escapes. Serializing a `str` does not fail.
#[verifier::external_body]
fn json_quote(s: &str) -> (r: String)
    ensures
        r@ == json_string_of(s@),
{
    match serde_json::to_string(s) {
        Ok(t) => t,
        Err(_) => String::new(),
    }
}

/// The decimal digit for `d < 10`.
pub open spec fn digit_char(d: nat) -> char {
    (('0' as nat) + d) as char
}

/// Decimal text of a natural number, without leading zeros.
pub open spec fn decimal_of(n: nat) -> Seq<char>
    decreases n,
{
    if n < 10 {
        seq![digit_char(n)]
    } else {
        decimal_of(n / 10) + seq![digit_char(n % 10)]
    }
}

/// Decimal text of an integer, with a leading `-` when negative.
pub open spec fn signed_decimal_of(n: int) -> Seq<char> {
    if n < 0 {
        seq!['-'] + decimal_of((-n) as nat)
    } else {
        decimal_of(n as nat)
    }
}

fn digit_text(d: u64) -> (r: &'static str)
    requires
        d < 10,
    ensures
        r@ == seq![digit_char(d as nat)],
{
    if d == 0 {
        proof {
            reveal_strlit("0");
        }
        "0"
    } else if d == 1 {
        proof {
            reveal_strlit("1");
        }
        "1"
    } else if d == 2 {
        proof {
            reveal_strlit("2");
        }
        "2"
    } else if d == 3 {
        proof {
            reveal_strlit("3");
        }
        "3"
    } else if d == 4 {
        proof {
            reveal_strlit("4");
        }
        "4"
    } else if d == 5 {
        proof {
            reveal_strlit("5");
        }
        "5"
    } else if d == 6 {
        proof {
            reveal_strlit("6");
        }
        "6"
    } else if d == 7 {
        proof {
            reveal_strlit("7");
        }
        "7"
    } else if d == 8 {
        proof {
            reveal_strlit("8");
        }
        "8"
    } else {
        proof {
            reveal_strlit("9");
        }
        "9"
    }
}

/// Decimal text of `n`.
fn u64_text(n: u64) -> (r: String)
    ensures
        r@ == decimal_of(n as nat),
    decreases n,
{
    if n < 10 {
        String::from_str(digit_text(n))
    } else {
        let mut out = u64_text(n / 10);
        out.append(digit_text(n % 10));
        out
    }
}

/// Decimal text of `n`, `-` first when negative.
fn i64_text(n: i64) -> (r: String)
    ensures
        r@ == signed_decimal_of(n as int),
{
    if n < 0 {
        let magnitude: u64 = (-(n as i128)) as u64;
        let mut out = String::from_str("-");
        proof {
            reveal_strlit("-");
        }
        out.append(u64_text(magnitude).as_str());
        out
    } else {
        u64_text(n as u64)
    }
}

/// The items joined with `,`.
pub open spec fn comma_joined(items: Seq<Seq<char>>) -> Seq<char>
    decreases items.len(),
{
    if items.len() == 0 {
        Seq::empty()
    } else if items.len() == 1 {
        items[0]
    } else {
        comma_joined(items.drop_last()) + seq![','] + items.last()
    }
}

/// JSON array of strings.
pub open spec fn json_array_of(v: Seq<String>) -> Seq<char> {
    seq!['['] + comma_joined(v.map_values(|s: String| json_string_of(s@))) + seq![']']
}

/// JSON object of string pairs, in the order given.
pub open spec fn json_object_of(v: Seq<(String, String)>) -> Seq<char> {
    seq!['{'] + comma_joined(
        v.map_values(|p: (String, String)| json_string_of(p.0@) + seq![':'] + json_string_of(p.1@)),
    ) + seq!['}']
}

/// `"name":` for a field name.
pub open spec fn field_of(name: Seq<char>) -> Seq<char> {
    seq!['"'] + name + seq!['"', ':']
}

/// The stored form of a secret-id record.
pub open spec fn secret_entry_json(e: SecretIdStorageEntry) -> Seq<char> {
    seq!['{'] + field_of("secret_id_accessor"@) + json_string_of(e.secret_id_accessor@)
        + seq![','] + field_of("secret_id_num_uses"@) + signed_decimal_of(e.secret_id_num_uses as int)
        + seq![','] + field_of("secret_id_ttl"@) + decimal_of(e.secret_id_ttl as nat)
        + seq![','] + field_of("creation_time"@) + decimal_of(e.creation_time as nat)
        + seq![','] + field_of("expiration_time"@) + decimal_of(e.expiration_time as nat)
        + seq![','] + field_of("last_updated_time"@) + decimal_of(e.last_updated_time as nat)
        + seq![','] + field_of("metadata"@) + json_object_of(e.metadata@)
        + seq![','] + field_of("cidr_list"@) + json_array_of(e.cidr_list@)
        + seq![','] + field_of("token_cidr_list"@) + json_array_of(e.token_cidr_list@)
        + seq!['}']
}

/// The stored form of an accessor record.
pub open spec fn accessor_entry_json(secret_id_hmac: Seq<char>) -> Seq<char> {
    seq!['{'] + field_of("secret_id_hmac"@) + json_string_of(secret_id_hmac) + seq!['}']
}

fn push(out: &mut String, s: &str)
    ensures
        final(out)@ == old(out)@ + s@,
{
    out.append(s);
}

/// JSON array of the strings.
fn encode_array(v: &Vec<String>) -> (r: String)
    ensures
        r@ == json_array_of(v@),
{
    let ghost q = v@.map_values(|s: String| json_string_of(s@));
    let mut out = String::from_str("[");
    proof { reveal_strlit("["); }
    let mut i: usize = 0;
    while i < v.len()
        invariant
            i <= v@.len(),
            q == v@.map_values(|s: String| json_string_of(s@)),
            out@ == seq!['['] + comma_joined(q.take(i as int)),
        decreases v@.len() - i,
    {
        let item = json_quote(v[i].as_str());
        if i > 0 {
            push(&mut out, ",");
            proof { reveal_strlit(","); }
        }
        push(&mut out, item.as_str());
        proof {
            assert(q.take(i + 1).drop_last() =~= q.take(i as int));
            assert(q.take(i + 1).last() == q[i as int]);
            if i == 0 {
                assert(q.take(1) =~= seq![q[0]]);
            }
        }
        i = i + 1;
    }
    push(&mut out, "]");
    proof {
        reveal_strlit("]");
        assert(q.take(v@.len() as int) =~= q);
    }
    out
}

/// JSON object of the pairs.
fn encode_object(v: &Vec<(String, String)>) -> (r: String)
    ensures
        r@ == json_object_of(v@),
{
    let ghost q = v@.map_values(
        |p: (String, String)| json_string_of(p.0@) + seq![':'] + json_string_of(p.1@),
    );
    let mut out = String::from_str("{");
    proof { reveal_strlit("{"); }
    let mut i: usize = 0;
    while i < v.len()
        invariant
            i <= v@.len(),
            q == v@.map_values(
                |p: (String, String)| json_string_of(p.0@) + seq![':'] + json_string_of(p.1@),
            ),
            out@ == seq!['{'] + comma_joined(q.take(i as int)),
        decreases v@.len() - i,
    {
        let k = json_quote(v[i].0.as_str());
        let val = json_quote(v[i].1.as_str());
        let ghost before = out@;
        if i > 0 {
            push(&mut out, ",");
            proof { reveal_strlit(","); }
        }
        push(&mut out, k.as_str());
        push(&mut out, ":");
        push(&mut out, val.as_str());
        proof {
            reveal_strlit(":");
            assert(q.take(i + 1).drop_last() =~= q.take(i as int));
            assert(q.take(i + 1).last() == q[i as int]);
            if i == 0 {
                assert(q.take(1) =~= seq![q[0]]);
                assert(out@ =~= seq!['{'] + comma_joined(q.take(i + 1)));
            } else {
                assert(out@ =~= seq!['{'] + comma_joined(q.take(i + 1)));
            }
        }
        i = i + 1;
    }
    push(&mut out, "}");
    proof {
        reveal_strlit("}");
        assert(q.take(v@.len() as int) =~= q);
    }
    out
}

fn push_field(out: &mut String, name: &str)
    ensures
        final(out)@ == old(out)@ + field_of(name@),
{
    push(out, "\"");
    push(out, name);
    push(out, "\":");
    proof {
        reveal_strlit("\"");
        reveal_strlit("\":");
        assert(final(out)@ =~= old(out)@ + field_of(name@));
    }
}

impl SecretIdStorageEntry {
    /// The stored form of the record: UTF-8 of its JSON text.
    pub fn encode(&self) -> (r: Vec<u8>)
        ensures
            r@ == encode_utf8(secret_entry_json(*self)),
    {
        let text = self.encode_text();
        text.as_str().as_bytes_vec()
    }

    fn encode_text(&self) -> (r: String)
        ensures
            r@ == secret_entry_json(*self),
    {
        let accessor = json_quote(self.secret_id_accessor.as_str());
        let metadata = encode_object(&self.metadata);
        let cidrs = encode_array(&self.cidr_list);
        let token_cidrs = encode_array(&self.token_cidr_list);
        let mut out = String::from_str("{");
        push_field(&mut out, "secret_id_accessor");
        push(&mut out, accessor.as_str());
        push(&mut out, ",");
        push_field(&mut out, "secret_id_num_uses");
        push(&mut out, i64_text(self.secret_id_num_uses).as_str());
        push(&mut out, ",");
        push_field(&mut out, "secret_id_ttl");
        push(&mut out, u64_text(self.secret_id_ttl).as_str());
        push(&mut out, ",");
        push_field(&mut out, "creation_time");
        push(&mut out, u64_text(self.creation_time).as_str());
        push(&mut out, ",");
        push_field(&mut out, "expiration_time");
        push(&mut out, u64_text(self.expiration_time).as_str());
        push(&mut out, ",");
        push_field(&mut out, "last_updated_time");
        push(&mut out, u64_text(self.last_updated_time).as_str());
        push(&mut out, ",");
        push_field(&mut out, "metadata");
        push(&mut out, metadata.as_str());
        push(&mut out, ",");
        push_field(&mut out, "cidr_list");
        push(&mut out, cidrs.as_str());
        push(&mut out, ",");
        push_field(&mut out, "token_cidr_list");
        push(&mut out, token_cidrs.as_str());
        push(&mut out, "}");
        proof {
            reveal_strlit("{");
            reveal_strlit("}");
            reveal_strlit(",");
            assert(out@ =~= secret_entry_json(*self));
        }
        out
    }
}

impl SecretIdAccessorStorageEntry {
    /// The stored form of the record: UTF-8 of its JSON text.
    pub fn encode(&self) -> (r: Vec<u8>)
        ensures
            r@ == encode_utf8(accessor_entry_json(self.secret_id_hmac@)),
    {
        let digest = json_quote(self.secret_id_hmac.as_str());
        let mut out = String::from_str("{");
        push_field(&mut out, "secret_id_hmac");
        push(&mut out, digest.as_str());
        push(&mut out, "}");
        proof {
            reveal_strlit("{");
            reveal_strlit("}");
            assert(out@ =~= accessor_entry_json(self.secret_id_hmac@));
        }
        out.as_str().as_bytes_vec()
    }
}

} // verus!
