//! The connections of a torrent, kept in a slab of the `slab` crate: each has an index, which is
//! its token.

use slab::Slab;
use vstd::prelude::*;

use crate::connection::{Connection, ConnectionView};

verus! {

/// The slab of the `slab` crate.
#[verifier::external_type_specification]
#[verifier::external_body]
#[verifier::reject_recursive_types(T)]
#[verifier::reject_recursive_types(I)]
pub struct ExSlab<T, I>(slab::Slab<T, I>);

/// The connections in a slab, by index.
pub uninterp spec fn conns_of(slots: Slab<Connection, usize>) -> Map<usize, ConnectionView>;

/// The number of connections that a slab can hold.
pub uninterp spec fn slots_of(slots: Slab<Connection, usize>) -> nat;

/// No connections.
pub open spec fn no_conns() -> Map<usize, ConnectionView> {
    Map::empty()
}

/// Whether a list holds the indices of connections, each once, in ascending order.
pub open spec fn visits(conns: Map<usize, ConnectionView>, indices: Seq<usize>) -> bool {
    &&& forall|i: int, j: int| 0 <= i < j < indices.len() ==> indices[i] < indices[j]
    &&& forall|k: usize| indices.contains(k) <==> conns.dom().contains(k)
}

/// Whether a list holds the tokens of connections in the order of their indices.
pub open spec fn lists_tokens(conns: Map<usize, ConnectionView>, tokens: Seq<usize>) -> bool {
    exists|indices: Seq<usize>| #[trigger]
        visits(conns, indices) && tokens == indices.map_values(|k: usize| conns[k].token)
}

/// `Slab::with_capacity`: no connections, and room for `capacity` of them.
#[verifier::external_body]
pub(crate) fn with_capacity(capacity: usize) -> (r: Slab<Connection, usize>)
    requires
        capacity <= 0x1000,
    ensures
        conns_of(r) == no_conns(),
        slots_of(r) == capacity,
{
    Slab::with_capacity(capacity)
}

/// `Slab::insert`, which takes the slot that `Slab::vacant_entry` gives: puts a connection at an
/// index below the capacity that was free, or hands it back where the slab is full.
#[verifier::external_body]
pub(crate) fn insert(slots: &mut Slab<Connection, usize>, conn: Connection) -> (r: Result<
    usize,
    Connection,
>)
    ensures
        slots_of(*final(slots)) == slots_of(*old(slots)),
        r is Ok <==> conns_of(*old(slots)).dom().len() < slots_of(*old(slots)),
        r matches Ok(index) ==> index < slots_of(*old(slots)) && !conns_of(
            *old(slots),
        ).dom().contains(index) && conns_of(*final(slots)) == conns_of(*old(slots)).insert(
            index,
            conn@,
        ),
        r matches Err(back) ==> back@ == conn@ && conns_of(*final(slots)) == conns_of(*old(slots)),
{
    slots.insert(conn)
}

/// `Slab::contains`: whether there is a connection at an index.
#[verifier::external_body]
pub(crate) fn contains(slots: &Slab<Connection, usize>, index: usize) -> (r: bool)
    ensures
        r == conns_of(*slots).dom().contains(index),
{
    slots.contains(index)
}

/// `Slab::index`: the connection at an index. The call panics where there is none.
#[verifier::external_body]
pub(crate) fn at(slots: &Slab<Connection, usize>, index: usize) -> (r: &Connection)
    requires
        conns_of(*slots).dom().contains(index),
    ensures
        r@ == conns_of(*slots)[index],
{
    &slots[index]
}

/// `Slab::index_mut`: the connection at an index, to be changed in place. The call panics where
/// there is none.
#[verifier::external_body]
pub(crate) fn at_mut(slots: &mut Slab<Connection, usize>, index: usize) -> (r: &mut Connection)
    requires
        conns_of(*old(slots)).dom().contains(index),
    ensures
        (*r)@ == conns_of(*old(slots))[index],
        conns_of(*final(slots)) == conns_of(*old(slots)).insert(index, (*final(r))@),
        slots_of(*final(slots)) == slots_of(*old(slots)),
{
    &mut slots[index]
}

/// `Slab::remove`: takes the connection at an index out, if there is one.
#[verifier::external_body]
pub(crate) fn remove(slots: &mut Slab<Connection, usize>, index: usize) -> (r: Option<Connection>)
    ensures
        r is Some <==> conns_of(*old(slots)).dom().contains(index),
        r matches Some(conn) ==> conn@ == conns_of(*old(slots))[index],
        conns_of(*final(slots)) == conns_of(*old(slots)).remove(index),
        slots_of(*final(slots)) == slots_of(*old(slots)),
{
    slots.remove(index)
}

/// `Slab::iter`: visits the connections in the order of their indices. Of each, the token is
/// taken.
#[verifier::external_body]
pub(crate) fn tokens(slots: &Slab<Connection, usize>) -> (r: Vec<usize>)
    ensures
        lists_tokens(conns_of(*slots), r@),
{
    slots.iter().map(|conn| conn.token).collect()
}

} // verus!
