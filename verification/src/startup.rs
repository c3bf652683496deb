//! What has to hold before a run may start: the target must be a URL that
//! requests can be sent to, and the fixture must give at least one payload.
//! A run that fails here never starts a virtual user.

use crate::corpus::{load_result, source_view, Corpus, LoadError};
use vstd::prelude::*;

verus! {

/// Why a run could not start.
#[derive(Clone, Copy, Debug, PartialEq, Eq, Structural)]
pub enum StartupError {
    /// The target host is no URL.
    TargetInvalid,
    /// The fixture could not be opened or read.
    SourceUnreadable,
    /// The fixture was read and holds no payload.
    SourceEmpty,
}

/// Whether `host` is a URL that `goose` takes for the host of a target.
pub uninterp spec fn host_is_valid(host: Seq<char>) -> bool;

/// Calls `goose::util::is_valid_host`, which parses `host` as a URL, and
/// says whether it succeeded. Nothing is proved of it: the contract only
/// gives the answer its name, so that the same host always has the same
/// answer.
#[verifier::external_body]
fn is_valid_host(host: &str) -> (valid: bool)
    ensures
        valid == host_is_valid(host@),
{
    goose::util::is_valid_host(host).is_ok()
}

/// Whether a run may start, and with which payloads: the target is looked
/// at first, then what reading the fixture gave.
pub open spec fn startup_result(target_valid: bool, source: Option<Seq<u8>>) -> Result<
    Seq<Seq<u8>>,
    StartupError,
> {
    if !target_valid {
        Err(StartupError::TargetInvalid)
    } else {
        match load_result(source) {
            Ok(payloads) => Ok(payloads),
            Err(LoadError::SourceUnreadable) => Err(StartupError::SourceUnreadable),
            Err(LoadError::SourceEmpty) => Err(StartupError::SourceEmpty),
        }
    }
}

/// What `ready` and `prepare` handed back, in mathematical terms.
pub open spec fn prepared_view(prepared: Result<Corpus, StartupError>) -> Result<
    Seq<Seq<u8>>,
    StartupError,
> {
    match prepared {
        Ok(corpus) => Ok(corpus@),
        Err(error) => Err(error),
    }
}

/// Decides whether a run may start, given whether its target is valid and
/// what reading its fixture gave, and loads the corpus if it may.
pub fn ready(target_valid: bool, source: Option<&[u8]>) -> (prepared: Result<Corpus, StartupError>)
    ensures
        prepared_view(prepared) == startup_result(target_valid, source_view(source)),
{
    if !target_valid {
        return Err(StartupError::TargetInvalid);
    }
    match Corpus::load(source) {
        Ok(corpus) => Ok(corpus),
        Err(LoadError::SourceUnreadable) => Err(StartupError::SourceUnreadable),
        Err(LoadError::SourceEmpty) => Err(StartupError::SourceEmpty),
    }
}

/// Checks the target host and loads the corpus from what reading the
/// fixture gave.
pub fn prepare(host: &str, source: Option<&[u8]>) -> (prepared: Result<Corpus, StartupError>)
    ensures
        prepared_view(prepared) == startup_result(host_is_valid(host@), source_view(source)),
{
    ready(is_valid_host(host), source)
}

/// A run starts only with a valid target and a fixture that was read and is
/// not empty, and then with the lines of the fixture as its payloads. Each
/// reason not to start comes up exactly where it holds, the target first.
pub proof fn lemma_startup(target_valid: bool, source: Option<Seq<u8>>)
    ensures
        startup_result(target_valid, source) is Ok <==> target_valid && source is Some
            && source.unwrap().len() > 0,
        startup_result(target_valid, source) is Ok ==> startup_result(target_valid, source)
            == Ok::<Seq<Seq<u8>>, StartupError>(crate::corpus::lines_of(source.unwrap())),
        startup_result(target_valid, source) == Err::<Seq<Seq<u8>>, StartupError>(
            StartupError::TargetInvalid,
        ) <==> !target_valid,
        startup_result(target_valid, source) == Err::<Seq<Seq<u8>>, StartupError>(
            StartupError::SourceUnreadable,
        ) <==> target_valid && source is None,
        startup_result(target_valid, source) == Err::<Seq<Seq<u8>>, StartupError>(
            StartupError::SourceEmpty,
        ) <==> target_valid && source is Some && source.unwrap().len() == 0,
{
    if let Some(text) = source {
        crate::corpus::lemma_no_lines_iff_empty(text);
    }
}

} // verus!
