//! Miner addresses, as the identifier logic reads them: the raw payload bytes
//! and the textual form.
use vstd::prelude::*;
use crate::model::RepoError;

verus! {

/// What parsing an address text gives: its payload bytes and its canonical text.
pub uninterp spec fn parsed_address(s: Seq<char>) -> Option<(Seq<u8>, Seq<char>)>;

/// Texts that the address parser accepts without panicking: a
/// checksummed protocol (`1`, `2`, `3`) needs at least seven payload characters.
pub open spec fn parse_safe(s: Seq<char>) -> bool {
    s.len() >= 9 || !(s.len() >= 2 && (s[1] == '1' || s[1] == '2' || s[1] == '3'))
}

/// Relies on `forest_address::Address::from_str`, `Address::payload_bytes` and
/// the `Display` text of the parsed address; the network comes from the text,
/// so the result depends on the text alone.
#[verifier::external_body]
fn parse_address(s: &str) -> (r: Option<(Vec<u8>, String)>)
    requires
        parse_safe(s@),
    ensures
        match parsed_address(s@) {
            Some((p, t)) => (r matches Some(v) && v.0@ == p && v.1@ == t),
            None => r is None,
        },
{
    match <forest_address::Address as std::str::FromStr>::from_str(s) {
        Ok(a) => Some((a.payload_bytes(), a.to_string())),
        Err(_) => None,
    }
}

/// Unsigned LEB128 encoding: seven bits per byte, low group first, the high
/// bit set on every byte but the last.
pub open spec fn leb128(n: nat) -> Seq<u8>
    decreases n,
{
    if n < 128 {
        seq![n as u8]
    } else {
        seq![((n % 128) + 128) as u8] + leb128(n / 128)
    }
}

/// Relies on `forest_address::Address::new_id`, whose payload bytes are the
/// unsigned LEB128 encoding of the id, and on its `Display` text, whose network
/// prefix is the process-wide default.
#[verifier::external_body]
fn id_address(id: u64) -> (r: (Vec<u8>, String))
    ensures
        r.0@ == leb128(id as nat),
{
    let a = forest_address::Address::new_id(id);
    (a.payload_bytes(), a.to_string())
}

/// The text without its leading network character.
pub open spec fn without_network(t: Seq<char>) -> Seq<char> {
    if t.len() > 0 {
        t.subrange(1, t.len() as int)
    } else {
        t
    }
}

/// A miner's address: the payload bytes that task identifiers are derived
/// from, and the full text with its network prefix.
#[derive(Debug, Clone)]
pub struct MinerAddress {
    pub payload: Vec<u8>,
    pub text: String,
}

impl MinerAddress {
    /// Parses an address text. Fails with `InvalidParams` on a malformed one.
    pub fn parse(s: &str) -> (r: Result<MinerAddress, RepoError>)
        ensures
            !parse_safe(s@) ==> (r matches Err(e) && e is InvalidParams),
            parse_safe(s@) ==> match parsed_address(s@) {
                Some((p, t)) => (r matches Ok(a) && a.payload@ == p && a.text@ == t),
                None => (r matches Err(e) && e is InvalidParams),
            },
    {
        let n = s.unicode_len();
        if n < 9 && n >= 2 {
            let c = s.get_char(1);
            if c == '1' || c == '2' || c == '3' {
                return Err(RepoError::InvalidParams(String::from_str(s)));
            }
        }
        match parse_address(s) {
            Some((payload, text)) => Ok(MinerAddress { payload, text }),
            None => Err(RepoError::InvalidParams(String::from_str(s))),
        }
    }

    /// The ID address of actor `id`.
    pub fn from_actor_id(id: u64) -> (r: MinerAddress)
        ensures
            r.payload@ == leb128(id as nat),
    {
        let (payload, text) = id_address(id);
        MinerAddress { payload, text }
    }

    /// The canonical form stored with a task: the text without the network prefix.
    pub fn miner_text(&self) -> (r: String)
        ensures
            r@ == without_network(self.text@),
    {
        let n = self.text.as_str().unicode_len();
        if n > 0 {
            String::from_str(self.text.as_str().substring_char(1, n))
        } else {
            String::new()
        }
    }
}

} // verus!
