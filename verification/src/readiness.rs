//! Sets of readiness kinds and of registration options, as `mio` hands them out and takes them.

use mio::{PollOpt, Ready};
use vstd::prelude::*;

verus! {

/// The set of readiness kinds of `mio`.
#[verifier::external_type_specification]
#[verifier::external_body]
pub struct ExReady(mio::Ready);

/// A kind of readiness.
pub enum Readiness {
    Readable,
    Writable,
    Error,
    Hup,
}

/// The kinds of readiness that a set holds.
pub uninterp spec fn kinds_of(ready: Ready) -> Set<Readiness>;

/// `Ready::hup`: the set of the hang-up kind alone.
#[verifier::external_body]
#[allow(deprecated)]
pub(crate) fn hup() -> (r: Ready)
    ensures
        kinds_of(r) == set![Readiness::Hup],
{
    Ready::hup()
}

/// `Ready::readable`: the set of the readable kind alone.
#[verifier::external_body]
pub(crate) fn readable() -> (r: Ready)
    ensures
        kinds_of(r) == set![Readiness::Readable],
{
    Ready::readable()
}

/// `Ready::writable`: the set of the writable kind alone.
#[verifier::external_body]
pub(crate) fn writable() -> (r: Ready)
    ensures
        kinds_of(r) == set![Readiness::Writable],
{
    Ready::writable()
}

/// `Ready::insert`: adds the kinds of another set.
#[verifier::external_body]
pub(crate) fn insert(ready: &mut Ready, other: Ready)
    ensures
        kinds_of(*final(ready)) == kinds_of(*old(ready)).union(kinds_of(other)),
{
    ready.insert(other)
}

/// `Ready::remove`: takes out the kinds of another set.
#[verifier::external_body]
pub(crate) fn remove(ready: &mut Ready, other: Ready)
    ensures
        kinds_of(*final(ready)) == kinds_of(*old(ready)).difference(kinds_of(other)),
{
    ready.remove(other)
}

/// `Ready::is_readable`: whether the set holds the readable kind.
#[verifier::external_body]
pub(crate) fn is_readable(ready: &Ready) -> (r: bool)
    ensures
        r == kinds_of(*ready).contains(Readiness::Readable),
{
    ready.is_readable()
}

/// `Ready::is_writable`: whether the set holds the writable kind.
#[verifier::external_body]
pub(crate) fn is_writable(ready: &Ready) -> (r: bool)
    ensures
        r == kinds_of(*ready).contains(Readiness::Writable),
{
    ready.is_writable()
}

/// `Ready::is_error`: whether the set holds the error kind.
#[verifier::external_body]
#[allow(deprecated)]
pub(crate) fn is_error(ready: &Ready) -> (r: bool)
    ensures
        r == kinds_of(*ready).contains(Readiness::Error),
{
    ready.is_error()
}

/// `Ready::is_hup`: whether the set holds the hang-up kind.
#[verifier::external_body]
#[allow(deprecated)]
pub(crate) fn is_hup(ready: &Ready) -> (r: bool)
    ensures
        r == kinds_of(*ready).contains(Readiness::Hup),
{
    ready.is_hup()
}

/// The set of options by which `mio` registers with a poller.
#[verifier::external_type_specification]
#[verifier::external_body]
pub struct ExPollOpt(mio::PollOpt);

/// An option of a registration.
pub enum PollOption {
    /// An event is told of once, when it comes up.
    Edge,
    /// An event is told of as long as it lasts.
    Level,
    /// After one event, nothing more is told of until there is another registration.
    Oneshot,
}

/// The options that a set holds.
pub uninterp spec fn options_of(options: PollOpt) -> Set<PollOption>;

/// `PollOpt::edge`: the set of the edge option alone.
#[verifier::external_body]
pub(crate) fn edge() -> (r: PollOpt)
    ensures
        options_of(r) == set![PollOption::Edge],
{
    PollOpt::edge()
}

/// `PollOpt::oneshot`: the set of the oneshot option alone.
#[verifier::external_body]
pub(crate) fn oneshot() -> (r: PollOpt)
    ensures
        options_of(r) == set![PollOption::Oneshot],
{
    PollOpt::oneshot()
}

/// The `|` of `PollOpt`: the options of both sets.
#[verifier::external_body]
pub(crate) fn both(a: PollOpt, b: PollOpt) -> (r: PollOpt)
    ensures
        options_of(r) == options_of(a).union(options_of(b)),
{
    a | b
}

} // verus!
