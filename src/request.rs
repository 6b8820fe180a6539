//! An update request as it arrives, and its check before the list is
//! touched: the list must be one of the three, the file inside the data
//! directory.

use vstd::prelude::*;
use vstd::utf8::encode_utf8;
use crate::listfile::{kind_named, ListKind};
use crate::paths::{decode_spaces, resolve_relative, within, PathError};

verus! {

/// An update of one annotation list, as a client sends it.
pub struct UpdateRequest {
    /// The root of the mutation file, relative to the data directory, with
    /// spaces possibly written `%20`.
    pub file: String,
    /// `whitelist`, `blacklist` or `sample_color`.
    pub target_list: String,
    /// The sub-updates, one per line.
    pub signature: String,
    /// Whether presence toggles add (`true`) or remove (`false`) entries.
    pub active: bool,
}

/// A checked update: the root relative to the data directory, the list, and
/// the batch of sub-updates.
pub struct Update {
    pub root: Vec<u8>,
    pub kind: ListKind,
    pub batch: Vec<u8>,
    pub active: bool,
}

/// Why an update request is refused.
#[derive(Clone, Copy, Debug, PartialEq, Eq, Structural)]
pub enum RequestError {
    /// The file lies outside the data directory.
    Escapes,
    /// The list is none of the three.
    UnknownList,
}

impl UpdateRequest {
    /// Checks the request: its file must stay inside the data directory once
    /// decoded, and its list must be one of the three.
    pub fn check(&self) -> (r: Result<Update, RequestError>)
        ensures
            ({
                let path = decode_spaces(encode_utf8(self.file@));
                match r {
                    Ok(u) => {
                        &&& within(path)
                        &&& kind_named(self.target_list@) == Some(u.kind)
                        &&& u.root@ == path
                        &&& u.batch@ == encode_utf8(self.signature@)
                        &&& u.active == self.active
                    },
                    Err(RequestError::Escapes) => !within(path),
                    Err(RequestError::UnknownList) => within(path) && kind_named(
                        self.target_list@,
                    ).is_none(),
                }
            }),
    {
        let root = match resolve_relative(self.file.as_str().as_bytes()) {
            Ok(p) => p,
            Err(PathError::Escapes) => {
                return Err(RequestError::Escapes);
            },
        };
        let kind = match ListKind::from_name(self.target_list.as_str()) {
            Some(k) => k,
            None => {
                return Err(RequestError::UnknownList);
            },
        };
        let batch = vstd::slice::slice_to_vec(self.signature.as_str().as_bytes());
        Ok(Update { root, kind, batch, active: self.active })
    }
}

} // verus!
