//! Configuration values the library works with, and the pool lookup rule.
use vstd::prelude::*;
use vstd::utf8::encode_utf8;

verus! {

/// Connection settings of one MQTT broker.
#[derive(Debug)]
pub struct MqttConfiguration {
    pub host: String,
    pub user: Option<String>,
    pub pass: Option<String>,
    pub port: u16,
    /// The client id to connect with; the pool id when absent.
    pub client_id: Option<String>,
}

/// Settings of one HTTP client pool.
#[derive(Debug)]
pub struct ClientConfiguration {
    pub default_headers: Vec<(String, String)>,
}

/// The MQTT port used when none is configured.
pub fn default_port() -> (r: u16)
    ensures
        r == 1883,
{
    1883
}

impl MqttConfiguration {
    /// The client id to connect with: the configured one, else the pool id.
    pub fn client_id_for(&self, pool_id: &str) -> (r: String)
        ensures
            r@ == match self.client_id {
                Some(c) => c@,
                None => pool_id@,
            },
    {
        match &self.client_id {
            Some(c) => c.clone(),
            None => pool_id.to_owned(),
        }
    }

    /// The credentials to connect with: only when both user and password are set.
    pub fn credentials(&self) -> (r: Option<(String, String)>)
        ensures
            match (self.user, self.pass) {
                (Some(u), Some(p)) => r == Some((u, p)),
                _ => r is None,
            },
    {
        match (&self.user, &self.pass) {
            (Some(u), Some(p)) => Some((u.clone(), p.clone())),
            _ => None,
        }
    }
}

/// Where pending timers are kept across restarts.
#[derive(Debug)]
pub enum Store {
    /// One file per event id in a directory.
    Dir(FileSystem),
    /// Nothing is kept.
    Null,
}

/// A directory of files keyed by event id.
#[derive(Debug)]
pub struct FileSystem {
    pub directory: String,
}

impl Store {
    /// A directory store when a directory is configured, else none.
    pub fn for_directory(uri: Option<String>) -> (r: Store)
        ensures
            match uri {
                Some(u) => r == Store::Dir(FileSystem { directory: u }),
                None => r == Store::Null,
            },
    {
        match uri {
            Some(u) => Store::Dir(FileSystem { directory: u }),
            None => Store::Null,
        }
    }
}

/// Position of the first id equal to `k`, or -1.
pub open spec fn text_index(ids: Seq<String>, k: Seq<char>) -> int
    decreases ids.len(),
{
    if ids.len() == 0 {
        -1
    } else {
        let r = text_index(ids.subrange(0, ids.len() - 1), k);
        if r >= 0 {
            r
        } else if ids[ids.len() - 1]@ == k {
            ids.len() - 1
        } else {
            -1
        }
    }
}

/// Which pool entry a pool id selects: the empty id selects the first entry,
/// any other id the entry of that id.
pub fn pool_index(ids: &[String], pool_id: &str) -> (r: Option<usize>)
    ensures
        pool_id@.len() == 0 ==> r == if ids@.len() > 0 { Some(0usize) } else { None },
        pool_id@.len() > 0 ==> match r {
            Some(i) => text_index(ids@, pool_id@) == i,
            None => text_index(ids@, pool_id@) == -1,
        },
{
    if pool_id.unicode_len() == 0 {
        return if ids.len() > 0 { Some(0) } else { None };
    }
    let mut found: Option<usize> = None;
    let mut i: usize = 0;
    while i < ids.len()
        invariant
            i <= ids.len(),
            found matches Some(j) ==> text_index(ids@.subrange(0, i as int), pool_id@) == j,
            found is None ==> text_index(ids@.subrange(0, i as int), pool_id@) == -1,
        decreases ids.len() - i,
    {
        proof {
            assert(ids@.subrange(0, i + 1).subrange(0, i as int) =~= ids@.subrange(0, i as int));
            assert(ids@.subrange(0, i + 1)[i as int] == ids@[i as int]);
        }
        if found.is_none() && crate::events::str_eq(ids[i].as_str(), pool_id) {
            found = Some(i);
        }
        i += 1;
    }
    proof {
        assert(ids@.subrange(0, ids.len() as int) =~= ids@);
    }
    found
}

/// The value of a hex digit, either case.
pub open spec fn hex_digit(c: u8) -> Option<u8> {
    if 'A' as u8 <= c <= 'F' as u8 {
        Some((c - 'A' as u8 + 10) as u8)
    } else if 'a' as u8 <= c <= 'f' as u8 {
        Some((c - 'a' as u8 + 10) as u8)
    } else if '0' as u8 <= c <= '9' as u8 {
        Some((c - '0' as u8) as u8)
    } else {
        None
    }
}

/// The bytes an even-length string of hex digits stands for, high digit first.
pub open spec fn hex_decoded(b: Seq<u8>) -> Option<Seq<u8>> {
    if b.len() % 2 == 0 && forall|i: int| 0 <= i < b.len() ==> (#[trigger] hex_digit(b[i])) is Some {
        Some(Seq::new((b.len() / 2) as nat, |i: int| (hex_digit(b[2 * i])->0 * 16 + hex_digit(b[2 * i + 1])->0) as u8))
    } else {
        None
    }
}

/// Relies on hex::decode: an even number of hex digits, of either case,
/// decodes to one byte per pair, high digit first; anything else is refused.
#[verifier::external_body]
fn hex_decode(b: &[u8]) -> (r: Option<Vec<u8>>)
    ensures
        match hex_decoded(b@) {
            Some(v) => r matches Some(x) && x@ == v,
            None => r is None,
        },
{
    hex::decode(b).ok()
}

/// `b` without its leading `0x` pairs.
pub open spec fn strip_0x(b: Seq<u8>) -> Seq<u8>
    decreases b.len(),
{
    if b.len() >= 2 && b[0] == '0' as u8 && b[1] == 'x' as u8 {
        strip_0x(b.subrange(2, b.len() as int))
    } else {
        b
    }
}

/// Up to four bytes, padded with zero bytes, read as a little-endian signed
/// 32-bit integer.
pub open spec fn le_i32(b: Seq<u8>) -> int {
    let at = |i: int| if i < b.len() { b[i] as int } else { 0int };
    let v = at(0) + 256 * at(1) + 65536 * at(2) + 16777216 * at(3);
    if v >= 0x8000_0000 { v - 0x1_0000_0000 } else { v }
}

/// A scan code written as hex text (`0x` prefixes allowed): up to four bytes,
/// read as a little-endian 32-bit integer; none for other text.
pub fn scan_code_from_hex(text: &str) -> (r: Option<i32>)
    ensures
        match hex_decoded(strip_0x(encode_utf8(text@))) {
            Some(v) => if v.len() <= 4 { r == Some(le_i32(v) as i32) } else { r is None },
            None => r is None,
        },
{
    let bytes = text.as_bytes();
    let mut start: usize = 0;
    proof {
        assert(bytes@.subrange(0, bytes@.len() as int) =~= bytes@);
    }
    while start < bytes.len() && bytes.len() - start >= 2 && bytes[start] == 48u8 && bytes[start + 1] == 120u8
        invariant
            start <= bytes.len(),
            strip_0x(bytes@.subrange(start as int, bytes@.len() as int)) == strip_0x(bytes@),
        decreases bytes.len() - start,
    {
        proof {
            let s = bytes@.subrange(start as int, bytes@.len() as int);
            assert(s.subrange(2, s.len() as int) =~= bytes@.subrange(start + 2, bytes@.len() as int));
        }
        start += 2;
    }
    let mut rest: Vec<u8> = Vec::new();
    let mut i: usize = start;
    while i < bytes.len()
        invariant
            start <= i <= bytes.len(),
            rest@ == bytes@.subrange(start as int, i as int),
        decreases bytes.len() - i,
    {
        rest.push(bytes[i]);
        i += 1;
        proof {
            assert(rest@ =~= bytes@.subrange(start as int, i as int));
        }
    }
    proof {
        let s = bytes@.subrange(start as int, bytes@.len() as int);
        assert(rest@ == s);
        assert(!(s.len() >= 2 && s[0] == '0' as u8 && s[1] == 'x' as u8));
        assert(strip_0x(s) == s);
    }
    let decoded = match hex_decode(rest.as_slice()) {
        Some(d) => d,
        None => return None,
    };
    if decoded.len() > 4 {
        return None;
    }
    let b0: u32 = if decoded.len() > 0 { decoded[0] as u32 } else { 0 };
    let b1: u32 = if decoded.len() > 1 { decoded[1] as u32 } else { 0 };
    let b2: u32 = if decoded.len() > 2 { decoded[2] as u32 } else { 0 };
    let b3: u32 = if decoded.len() > 3 { decoded[3] as u32 } else { 0 };
    let v: u64 = b0 as u64 + 256 * b1 as u64 + 65536 * b2 as u64 + 16777216 * b3 as u64;
    let code: i64 = if v >= 0x8000_0000 { v as i64 - 0x1_0000_0000 } else { v as i64 };
    Some(code as i32)
}

} // verus!
