//! Session serialization, and the directory layout for persistence.
//!
//! Reading and writing files, and reading the environment, happen
//! outside this crate: the directory helpers here are pure functions
//! of the environment values the caller hands in, and serialization
//! works on plain text.

use vstd::prelude::*;
use vstd::string::StringSliceAdditionalSpecFns;

use crate::error::{MuxError, MuxResult};
use crate::json::{blank_session, chars_of_ascii, decode_session, enc_session, encode_session};
use crate::session::Session;

verus! {

/// All bytes are ASCII.
pub open spec fn all_ascii(bs: Seq<u8>) -> bool {
    forall|i: int| 0 <= i < bs.len() ==> bs[i] < 0x80
}

/// Relies on `String::from_utf8`: bytes below 0x80 are ASCII, hence
/// valid UTF-8, and decode to exactly those characters.
#[verifier::external_body]
fn string_from_ascii(bytes: Vec<u8>) -> (r: String)
    requires
        all_ascii(bytes@),
    ensures
        r@ == chars_of_ascii(bytes@),
{
    String::from_utf8(bytes).unwrap_or_default()
}

/// Serialize a session to its JSON text.
///
/// Fails only if the encoding were to contain a non-ASCII byte,
/// which it never does.
pub fn serialize_session(session: &Session) -> (r: MuxResult<String>)
    ensures
        r matches Ok(text) ==> text@ == chars_of_ascii(enc_session(*session)) && all_ascii(
            enc_session(*session),
        ),
        r is Err ==> !all_ascii(enc_session(*session)),
{
    let bytes = encode_session(session);
    let mut i: usize = 0;
    while i < bytes.len()
        invariant
            0 <= i <= bytes@.len(),
            bytes@ == enc_session(*session),
            forall|k: int| 0 <= k < i ==> bytes@[k] < 0x80,
        decreases bytes@.len() - i,
    {
        if bytes[i] >= 0x80 {
            proof {
                assert(bytes@[i as int] >= 0x80);
                assert(!all_ascii(bytes@));
            }
            return Err(MuxError::PersistenceError("non-ascii byte in encoding".to_owned()));
        }
        i = i + 1;
    }
    proof {
        assert(all_ascii(bytes@));
    }
    Ok(string_from_ascii(bytes))
}

/// Deserialize a session from its JSON text.
///
/// A successful decode proves the text is the canonical encoding of
/// the returned session. Success is owed, and proved, on the blank
/// session's encoding; the other canonical encodings are exercised
/// by tests.
pub fn deserialize_session(json: &str) -> (r: MuxResult<Session>)
    ensures
        r matches Ok(s) ==> json.spec_bytes() == enc_session(s),
        forall|s: Session| blank_session(s) && json.spec_bytes() == #[trigger] enc_session(s)
            ==> r is Ok,
{
    let bytes = json.as_bytes();
    match decode_session(bytes) {
        Some(s) => Ok(s),
        None => Err(MuxError::PersistenceError("invalid session json".to_owned())),
    }
}

/// The data directory derived from the environment: `XDG_DATA_HOME`
/// when set, else `$HOME/.local/share`, else a world-readable
/// fallback; always with the application's own subdirectory.
pub fn dirs_or_default(xdg_data_home: Option<&str>, home: Option<&str>) -> (r: String)
    ensures
        xdg_data_home matches Some(x) ==> r@ == x@ + "/alacritty"@,
        home matches Some(h) ==> (xdg_data_home is None ==> r@ == h@
            + "/.local/share/alacritty"@),
        xdg_data_home is None && home is None ==> r@ == "/tmp/alacritty"@,
{
    match xdg_data_home {
        Some(x) => {
            let mut out = x.to_owned();
            out.append("/alacritty");
            out
        },
        None => match home {
            Some(h) => {
                let mut out = h.to_owned();
                out.append("/.local/share/alacritty");
                out
            },
            None => "/tmp/alacritty".to_owned(),
        },
    }
}

/// The directory where sessions are stored, under the data
/// directory.
pub fn session_dir(data_dir: &str) -> (r: String)
    ensures
        r@ == data_dir@ + "/sessions"@,
{
    let mut out = data_dir.to_owned();
    out.append("/sessions");
    out
}

/// The directory where sockets are stored, under the data directory.
pub fn socket_dir(data_dir: &str) -> (r: String)
    ensures
        r@ == data_dir@ + "/sockets"@,
{
    let mut out = data_dir.to_owned();
    out.append("/sockets");
    out
}

} // verus!
