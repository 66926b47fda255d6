//! One save attempt: parse the submitted text, re-encode it canonically,
//! and commit it to the store only once the canonical text has been
//! persisted. Every failure leaves the store exactly as it was.

use vstd::prelude::*;
use vstd::string::StringExecFns;
use crate::codec::parse_config;
use crate::codec::serialize_config;
use crate::codec::spec_parse_config_text;
use crate::codec::spec_ser_config;
use crate::model::Config;
use crate::model::ConfigV;
use crate::store::ConfigStore;

verus! {

/// Why a save attempt was rejected.
pub enum SaveError {
    /// The submitted text does not parse as a configuration.
    InvalidInput,
    /// The parsed document could not be re-encoded. Canonical serialization
    /// is total, so `prepare_save` never produces this; the kind exists so
    /// that every step of the pipeline has a name for its failure.
    SerializationError,
    /// Writing the canonical text to the configuration file failed; carries
    /// the writer's own description.
    PersistenceError(String),
}

/// The operator-facing line for each failure.
pub open spec fn spec_error_message(e: SaveError) -> Seq<char> {
    match e {
        SaveError::InvalidInput => "Invalid JSON: the submitted text is not a valid configuration"@,
        SaveError::SerializationError => "Failed to serialize config"@,
        SaveError::PersistenceError(m) => "Failed to write config.json: "@ + m@,
    }
}

impl SaveError {
    /// The operator-facing line for this failure.
    pub fn message(&self) -> (r: String)
        ensures
            r@ == spec_error_message(*self),
    {
        match self {
            SaveError::InvalidInput => String::from_str(
                "Invalid JSON: the submitted text is not a valid configuration",
            ),
            SaveError::SerializationError => String::from_str("Failed to serialize config"),
            SaveError::PersistenceError(m) => String::from_str(
                "Failed to write config.json: ",
            ).concat(m.as_str()),
        }
    }

    /// Whether the failure is the submitter's (a client error) rather than
    /// the server's.
    pub fn is_client_error(&self) -> (r: bool)
        ensures
            r == (*self is InvalidInput),
    {
        match self {
            SaveError::InvalidInput => true,
            _ => false,
        }
    }
}

/// A submission that parsed: the document to commit and the canonical text
/// to persist.
pub struct PreparedSave {
    pub doc: Config,
    pub canonical: String,
}

/// Parse and canonicalize one submission. Succeeds exactly when the text is
/// a well-formed configuration; the rejection is always `InvalidInput`, so
/// the current state is untouched and the caller echoes the submission back.
pub fn prepare_save(text: &str) -> (r: Result<PreparedSave, SaveError>)
    ensures
        match r {
            Ok(p) => spec_parse_config_text(text@) == Some(p.doc@) && p.canonical@
                == spec_ser_config(p.doc@),
            Err(e) => spec_parse_config_text(text@) is None && e == SaveError::InvalidInput,
        },
{
    match parse_config(text) {
        Some(doc) => {
            let canonical = serialize_config(&doc);
            Ok(PreparedSave { doc, canonical })
        },
        None => Err(SaveError::InvalidInput),
    }
}

/// Commit a prepared document, given the outcome of persisting its canonical
/// text. The store takes the new document exactly when the write succeeded;
/// on a failed write it keeps its old document, and the error carries the
/// writer's description.
pub fn finish_save(store: &mut ConfigStore, doc: Config, persist_error: Option<String>) -> (r:
    Result<(), SaveError>)
    ensures
        match persist_error {
            None => final(store)@ == doc@ && r is Ok,
            Some(m) => final(store)@ == old(store)@ && r == Err::<(), SaveError>(
                SaveError::PersistenceError(m),
            ),
        },
{
    match persist_error {
        None => {
            store.replace(doc);
            Ok(())
        },
        Some(m) => Err(SaveError::PersistenceError(m)),
    }
}

/// Whether a save attempt commits: the submission parses and the write of
/// its canonical text succeeded.
pub open spec fn spec_save_commits(text: Seq<char>, persist_ok: bool) -> bool {
    spec_parse_config_text(text) is Some && persist_ok
}

/// The stored document after a save attempt.
pub open spec fn spec_store_after(store0: ConfigV, text: Seq<char>, persist_ok: bool) -> ConfigV {
    if spec_save_commits(text, persist_ok) {
        spec_parse_config_text(text).unwrap()
    } else {
        store0
    }
}

/// The configuration file's content after a save attempt, in the model where
/// an attempted write either goes through whole or changes nothing. A
/// submission rejected at the parse step is never written at all.
pub open spec fn spec_disk_after(disk0: Seq<char>, text: Seq<char>, persist_ok: bool) -> Seq<
    char,
> {
    if spec_save_commits(text, persist_ok) {
        spec_ser_config(spec_parse_config_text(text).unwrap())
    } else {
        disk0
    }
}

/// A failed save attempt is a no-op: whatever made it fail, the store holds
/// exactly the document it held before, so a read right after returns a
/// document identical to the one before the attempt; and a submission
/// rejected before persisting leaves the file's content untouched.
pub proof fn lemma_failed_save_is_noop(
    store0: ConfigV,
    disk0: Seq<char>,
    text: Seq<char>,
    persist_ok: bool,
)
    requires
        !spec_save_commits(text, persist_ok),
    ensures
        spec_store_after(store0, text, persist_ok) == store0,
        spec_disk_after(disk0, text, persist_ok) == disk0,
{
}

/// After any save attempt the store holds a whole document: either exactly
/// the one it held before, or exactly the one the submission parsed to —
/// never a mixture of the two. (That concurrent readers observe only these
/// two states rests on the exclusive lock the surrounding program takes
/// around `replace`; no in-between state is representable here at all.)
pub proof fn lemma_save_leaves_whole_documents(
    store0: ConfigV,
    text: Seq<char>,
    persist_ok: bool,
)
    ensures
        spec_store_after(store0, text, persist_ok) == store0 || spec_parse_config_text(text)
            == Some(spec_store_after(store0, text, persist_ok)),
{
}

/// A committed save installs exactly the parsed document, and the persisted
/// canonical text parses back to that same document.
pub proof fn lemma_committed_save_is_consistent(
    store0: ConfigV,
    disk0: Seq<char>,
    text: Seq<char>,
)
    requires
        spec_save_commits(text, true),
    ensures
        spec_parse_config_text(text) == Some(spec_store_after(store0, text, true)),
        spec_parse_config_text(spec_disk_after(disk0, text, true)) == Some(
            spec_store_after(store0, text, true),
        ),
{
    crate::codec::lemma_canonical_round_trip(spec_parse_config_text(text).unwrap());
}

} // verus!
