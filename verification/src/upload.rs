//! The upload that may open a connection: a token that names a stored
//! strategy, followed by the text that is to replace it.
//!
//! The first 32 bytes received are the token, byte for byte; what follows
//! them is the new text. A token names the first stored file whose name has
//! exactly its bytes.

use vstd::prelude::*;
use vstd::slice::slice_subrange;
use vstd::string::StringSliceAdditionalSpecFns;
use crate::seeding::{pattern_len, views};
use crate::strategy::{is_strategy, replace, stripped, Entry, LengthMismatch, IDENTIFIER_LEN};
use crate::text::{digits, push_all, push_digits, push_text};

verus! {

/// The token of an upload: its first 32 bytes, with zero bytes after them
/// where fewer were received.
pub open spec fn token_of(data: Seq<u8>) -> Seq<u8> {
    Seq::new(
        IDENTIFIER_LEN as nat,
        |i: int|
            if i < data.len() {
                data[i]
            } else {
                0u8
            },
    )
}

/// The text of an upload: what was received after the token.
pub open spec fn content_of(data: Seq<u8>) -> Seq<u8> {
    if data.len() > IDENTIFIER_LEN {
        data.skip(IDENTIFIER_LEN as int)
    } else {
        Seq::empty()
    }
}

/// Whether no stored name is the token.
pub open spec fn unknown(names: Seq<Seq<u8>>, token: Seq<u8>) -> bool {
    forall|j: int| 0 <= j < names.len() ==> #[trigger] names[j] != token
}

/// Whether `i` is the first stored name that is the token.
pub open spec fn names_first(names: Seq<Seq<u8>>, token: Seq<u8>, i: int) -> bool {
    &&& 0 <= i < names.len()
    &&& names[i] == token
    &&& forall|j: int| 0 <= j < i ==> #[trigger] names[j] != token
}

/// What an upload comes to.
#[derive(Clone, Debug, PartialEq, Eq)]
pub enum Upload {
    /// Nothing was received: the connection goes on without a reply.
    Nothing,
    /// No stored file has the token for its name.
    Unknown { token: Vec<u8> },
    /// The text is a pattern: `file` is to be written over the stored file
    /// at position `index`.
    Stored { index: usize, file: Entry },
    /// The text is no pattern: the stored file at position `index` stays as
    /// it is.
    Rejected { index: usize, token: Vec<u8>, error: LengthMismatch },
}

/// The reply to an upload that was stored.
pub open spec fn stored_text(token: Seq<u8>) -> Seq<u8> {
    "\x1b[0m\x1b[92mUpdated strat for \"\x1b[1m".spec_bytes() + token
        + "\x1b[0m\x1b[92m\"\x1b[0m".spec_bytes()
}

/// The reply to an upload that was refused for its length.
pub open spec fn rejected_text(token: Seq<u8>, error: LengthMismatch) -> Seq<u8> {
    "\x1b[0m\x1b[91m\x1b[1mERROR\x1b[0m\x1b[91m: New strategy for \"\x1b[1m".spec_bytes() + token
        + "\x1b[0m\x1b[91m\" of wrong length. Got ".spec_bytes() + digits(error.actual as nat)
        + " but expected ".spec_bytes() + digits(error.expected as nat)
        + " (\\n are ignored)\x1b[0m".spec_bytes()
}

/// The reply to an upload whose token names no stored file.
pub open spec fn unknown_text(token: Seq<u8>) -> Seq<u8> {
    "ERROR: Unknown token \"".spec_bytes() + token + "\"".spec_bytes()
}

/// The reply that an upload is owed, if any.
pub open spec fn reply_of(upload: Upload) -> Option<Seq<u8>> {
    match upload {
        Upload::Nothing => None,
        Upload::Unknown { token } => Some(unknown_text(token@)),
        Upload::Stored { index, file } => Some(stored_text(file.name@)),
        Upload::Rejected { index, token, error } => Some(rejected_text(token@, error)),
    }
}

/// How many bytes a connection reads for an upload: room for the token and
/// a pattern, twice over, so that a text split by line breaks fits.
pub open spec fn upload_room(side: nat) -> int {
    (IDENTIFIER_LEN + pattern_len(side)) * 2
}

/// Computes how many bytes to read for an upload, or nothing where the
/// number is out of range.
pub fn upload_capacity(side: usize) -> (room: Option<usize>)
    ensures
        room is Some <==> upload_room(side as nat) <= usize::MAX,
        room matches Some(n) ==> n == upload_room(side as nat),
{
    let q: usize = side / 2;
    match q.checked_mul(q) {
        Some(pattern) => match pattern.checked_add(IDENTIFIER_LEN) {
            Some(one) => one.checked_mul(2),
            None => None,
        },
        None => None,
    }
}

/// Whether two byte strings are the same.
pub fn same_bytes(a: &[u8], b: &[u8]) -> (same: bool)
    ensures
        same == (a@ == b@),
{
    if a.len() != b.len() {
        return false;
    }
    let mut i: usize = 0;
    while i < a.len()
        invariant
            i <= a.len(),
            a.len() == b.len(),
            forall|j: int| 0 <= j < i ==> a@[j] == b@[j],
        decreases a.len() - i,
    {
        if a[i] != b[i] {
            return false;
        }
        i += 1;
    }
    assert(a@ =~= b@);
    true
}

/// Takes the token from what was received.
pub fn read_token(data: &[u8]) -> (token: Vec<u8>)
    ensures
        token@ == token_of(data@),
{
    let mut token: Vec<u8> = Vec::new();
    let mut i: usize = 0;
    while i < IDENTIFIER_LEN
        invariant
            i <= IDENTIFIER_LEN,
            token@.len() == i,
            forall|j: int| 0 <= j < i ==> #[trigger] token@[j] == token_of(data@)[j],
        decreases IDENTIFIER_LEN - i,
    {
        if i < data.len() {
            token.push(data[i]);
        } else {
            token.push(0);
        }
        i += 1;
    }
    assert(token@ =~= token_of(data@));
    token
}

/// Takes the new text from what was received.
pub fn read_content(data: &[u8]) -> (content: &[u8])
    ensures
        content@ == content_of(data@),
{
    if data.len() > IDENTIFIER_LEN {
        slice_subrange(data, IDENTIFIER_LEN, data.len())
    } else {
        slice_subrange(data, 0, 0)
    }
}

/// Finds the first stored name that is the token.
pub fn find_token(names: &Vec<Vec<u8>>, token: &[u8]) -> (found: Option<usize>)
    ensures
        match found {
            Some(i) => names_first(views(names@), token@, i as int),
            None => unknown(views(names@), token@),
        },
{
    let mut i: usize = 0;
    while i < names.len()
        invariant
            i <= names.len(),
            forall|j: int| 0 <= j < i ==> #[trigger] views(names@)[j] != token@,
        decreases names.len() - i,
    {
        if same_bytes(names[i].as_slice(), token) {
            return Some(i);
        }
        i += 1;
    }
    None
}

/// Decides what an upload comes to, given the names of the stored files in
/// the order in which the directory lists them, and the bytes received.
///
/// Nothing received means no upload. A token that names no stored file is
/// reported as unknown. Otherwise the text replaces the named file if it is
/// a pattern for the board, and is refused with the two lengths if not.
pub fn receive_upload(side: usize, names: &Vec<Vec<u8>>, data: &[u8]) -> (upload: Upload)
    requires
        side * side <= usize::MAX,
    ensures
        data@.len() == 0 ==> upload is Nothing,
        data@.len() > 0 && unknown(views(names@), token_of(data@)) ==> (upload matches Upload::Unknown {
            token,
        } && token@ == token_of(data@)),
        forall|i: int|
            data@.len() > 0 && names_first(views(names@), token_of(data@), i) ==> if is_strategy(
                side as nat,
                content_of(data@),
            ) {
                upload matches Upload::Stored { index, file } && index == i && file.name@
                    == token_of(data@) && file.content@ == content_of(data@)
            } else {
                upload matches Upload::Rejected { index, token, error } && index == i && token@
                    == token_of(data@) && error == (LengthMismatch {
                    expected: pattern_len(side as nat) as usize,
                    actual: stripped(content_of(data@)).len() as usize,
                })
            },
{
    if data.len() == 0 {
        return Upload::Nothing;
    }
    let token: Vec<u8> = read_token(data);
    match find_token(names, token.as_slice()) {
        None => Upload::Unknown { token },
        Some(index) => {
            match replace(side, token.as_slice(), read_content(data)) {
                Ok(file) => Upload::Stored { index, file },
                Err(error) => Upload::Rejected { index, token, error },
            }
        },
    }
}

/// Writes the reply that an upload is owed, if it is owed one.
pub fn render_reply(upload: &Upload) -> (reply: Option<Vec<u8>>)
    ensures
        match reply {
            Some(text) => reply_of(*upload) == Some(text@),
            None => reply_of(*upload).is_none(),
        },
{
    match upload {
        Upload::Nothing => None,
        Upload::Unknown { token } => {
            let mut out: Vec<u8> = Vec::new();
            push_text(&mut out, "ERROR: Unknown token \"");
            push_all(&mut out, token.as_slice());
            push_text(&mut out, "\"");
            assert(out@ =~= unknown_text(token@));
            Some(out)
        },
        Upload::Stored { index, file } => {
            let mut out: Vec<u8> = Vec::new();
            push_text(&mut out, "\x1b[0m\x1b[92mUpdated strat for \"\x1b[1m");
            push_all(&mut out, file.name.as_slice());
            push_text(&mut out, "\x1b[0m\x1b[92m\"\x1b[0m");
            assert(out@ =~= stored_text(file.name@));
            Some(out)
        },
        Upload::Rejected { index, token, error } => {
            let mut out: Vec<u8> = Vec::new();
            push_text(
                &mut out,
                "\x1b[0m\x1b[91m\x1b[1mERROR\x1b[0m\x1b[91m: New strategy for \"\x1b[1m",
            );
            push_all(&mut out, token.as_slice());
            push_text(&mut out, "\x1b[0m\x1b[91m\" of wrong length. Got ");
            push_digits(&mut out, error.actual);
            push_text(&mut out, " but expected ");
            push_digits(&mut out, error.expected);
            push_text(&mut out, " (\\n are ignored)\x1b[0m");
            assert(out@ =~= rejected_text(token@, *error));
            Some(out)
        },
    }
}

} // verus!
