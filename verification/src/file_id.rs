use vstd::prelude::*;

verus! {

/// The identifier a fresh mint yields when the counter stands at `c`:
/// the counter value itself, stepped past the reserved identifiers 0 and 1.
pub open spec fn mint_of(c: int) -> int {
    if c < 2 {
        2
    } else {
        c
    }
}

/// Allocates file-handle identifiers. Identifiers 0 and 1 are reserved for
/// the standard streams and are never minted. Released identifiers are
/// reused, most recently released first, before the counter mints a new
/// one. The counter saturates at the machine limit instead of wrapping.
pub struct IdManager {
    id: usize,
    used: Vec<usize>,
}

impl IdManager {
    /// The next raw counter value.
    pub closed spec fn counter(self) -> int {
        self.id as int
    }

    /// The identifiers released and not yet handed out again, oldest first.
    pub closed spec fn free(self) -> Seq<usize> {
        self.used@
    }

    pub fn new() -> (r: Self)
        ensures
            r.counter() == 0,
            r.free() == Seq::<usize>::empty(),
    {
        Self { id: 0, used: Vec::new() }
    }

    /// Hand out an identifier: the most recently released one if any is
    /// free, otherwise a freshly minted one, which is always greater than 1.
    pub fn get(&mut self) -> (r: usize)
        ensures
            old(self).counter() <= final(self).counter() <= old(self).counter() + 3,
            old(self).free().len() > 0 ==> r == old(self).free().last()
                && final(self).free() == old(self).free().drop_last()
                && final(self).counter() == old(self).counter(),
            old(self).free().len() == 0 ==> r == mint_of(old(self).counter())
                && r > 1
                && final(self).free() == old(self).free()
                && final(self).counter() == (
                    if mint_of(old(self).counter()) < usize::MAX {
                        mint_of(old(self).counter()) + 1
                    } else {
                        mint_of(old(self).counter())
                    }
                ),
    {
        if let Some(id) = self.used.pop() {
            id
        } else {
            let rt = if self.id < 2 {
                2
            } else {
                self.id
            };
            self.id = if rt < usize::MAX {
                rt + 1
            } else {
                rt
            };
            rt
        }
    }

    /// Return an identifier to the free pool so that the next `get` hands
    /// it out again. Closing a file does not release its identifier; a
    /// host that retires a handle for good calls this explicitly.
    pub fn release(&mut self, id: usize)
        ensures
            final(self).free() == old(self).free().push(id),
            final(self).counter() == old(self).counter(),
    {
        self.used.push(id);
    }
}

} // verus!
