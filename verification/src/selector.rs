//! Round-robin cursor.

use vstd::prelude::*;
use vstd::arithmetic::div_mod::lemma_add_mod_noop;
use vstd::arithmetic::div_mod::lemma_small_mod;

verus! {

/// The position a cursor at `cursor` picks in a list of `len` items.
pub open spec fn rr_pick(cursor: nat, len: nat) -> nat
    recommends
        len > 0,
{
    cursor % len
}

/// The cursor after one pick from a list of `len` items.
pub open spec fn rr_advance(cursor: nat, len: nat) -> nat
    recommends
        len > 0,
{
    (cursor + 1) % len
}

/// A cycling index that spreads picks evenly over a list of servers.
#[derive(Clone, Copy, Debug)]
pub struct ServerSelector {
    index: usize,
}

impl ServerSelector {
    /// The cursor: the position, before wrapping, of the next pick.
    pub closed spec fn cursor(&self) -> nat {
        self.index as nat
    }

    /// A selector that starts at the head of whatever list it is first used on.
    pub fn new() -> (selector: Self)
        ensures
            selector.cursor() == 0,
    {
        ServerSelector { index: 0 }
    }

    /// The cursor as a number.
    pub fn position(&self) -> (index: usize)
        ensures
            index == self.cursor(),
    {
        self.index
    }

    /// Picks the next position in a list of `len` items and advances the cursor,
    /// wrapping at the end of the list.
    pub fn next_index(&mut self, len: usize) -> (picked: usize)
        requires
            len > 0,
        ensures
            picked == rr_pick(old(self).cursor(), len as nat),
            picked < len,
            final(self).cursor() == rr_advance(old(self).cursor(), len as nat),
            final(self).cursor() < len,
    {
        let picked: usize = self.index % len;
        proof {
            lemma_add_mod_noop(self.index as int, 1, len as int);
            if len > 1 {
                lemma_small_mod(1, len as nat);
            }
        }
        self.index = (picked + 1) % len;
        picked
    }

    /// Picks the next server of `servers` in cyclic order and advances the cursor.
    pub fn next_server<'a>(&mut self, servers: &'a [&'a str]) -> (server: &'a str)
        requires
            servers@.len() > 0,
        ensures
            server == servers@[rr_pick(old(self).cursor(), servers@.len()) as int],
            final(self).cursor() == rr_advance(old(self).cursor(), servers@.len()),
    {
        let picked: usize = self.next_index(servers.len());
        servers[picked]
    }
}

} // verus!
