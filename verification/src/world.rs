//! The live world subtree of an instance, modelled as the list of its
//! top-level entries.
//!
//! The marker file `level.dat` is what makes a directory recognisable as
//! managed world data; its presence is checked, never its content. Setting
//! the world replaces the live subtree wholesale with a copy of the source's
//! entries — restore from a backup is simply this primitive applied to a
//! previously created backup.

use vstd::prelude::*;
use vstd::string::*;

use crate::errors::Error;

verus! {

/// One top-level entry of a world subtree: a file or directory name and its
/// content, which this core never interprets.
#[derive(Debug)]
pub struct WorldEntry {
    pub name: String,
    pub data: Vec<u8>,
}

/// What an entry holds, as plain values.
pub open spec fn entry_view(e: WorldEntry) -> (Seq<char>, Seq<u8>) {
    (e.name@, e.data@)
}

/// What a subtree holds, as plain values.
pub open spec fn entries_view(es: Seq<WorldEntry>) -> Seq<(Seq<char>, Seq<u8>)> {
    es.map_values(|e: WorldEntry| entry_view(e))
}

/// Copies a byte vector.
fn copy_bytes(v: &Vec<u8>) -> (r: Vec<u8>)
    ensures
        r@ == v@,
{
    let mut r: Vec<u8> = Vec::new();
    let mut i: usize = 0;
    while i < v.len()
        invariant
            i <= v@.len(),
            r@ == v@.subrange(0, i as int),
        decreases v@.len() - i,
    {
        r.push(v[i]);
        proof {
            assert(v@.subrange(0, i + 1 as int) =~= v@.subrange(0, i as int).push(v@[i as int]));
        }
        i = i + 1;
    }
    proof {
        assert(v@.subrange(0, v@.len() as int) =~= v@);
    }
    r
}

impl Clone for WorldEntry {
    /// Cloning keeps the name and the content.
    fn clone(&self) -> (r: Self)
        ensures
            entry_view(r) == entry_view(*self),
    {
        WorldEntry { name: self.name.clone(), data: copy_bytes(&self.data) }
    }
}

/// Copies the entries of a world subtree.
pub fn clone_entries(v: &Vec<WorldEntry>) -> (r: Vec<WorldEntry>)
    ensures
        entries_view(r@) == entries_view(v@),
        r@.len() == v@.len(),
{
    let mut r: Vec<WorldEntry> = Vec::new();
    let mut i: usize = 0;
    while i < v.len()
        invariant
            i <= v@.len(),
            r@.len() == i,
            entries_view(r@) == entries_view(v@.subrange(0, i as int)),
        decreases v@.len() - i,
    {
        let e = v[i].clone();
        let ghost pre_r = r@;
        r.push(e);
        proof {
            let pre = v@.subrange(0, i as int);
            let post = v@.subrange(0, i + 1 as int);
            assert(post =~= pre.push(v@[i as int]));
            assert forall|j: int| 0 <= j < i + 1 implies entries_view(r@)[j] == entries_view(
                post,
            )[j] by {
                assert(entries_view(r@)[j] == entry_view(r@[j]));
                assert(entries_view(post)[j] == entry_view(post[j]));
                if j < i {
                    assert(r@[j] == pre_r[j]);
                    assert(entries_view(pre_r)[j] == entry_view(pre_r[j]));
                    assert(entries_view(pre)[j] == entry_view(pre[j]));
                }
            }
            assert(entries_view(r@) =~= entries_view(post));
        }
        i = i + 1;
    }
    proof {
        assert(v@.subrange(0, v@.len() as int) =~= v@);
    }
    r
}

/// The entry at position `i` carries the marker name.
pub open spec fn marker_at(entries: Seq<WorldEntry>, i: int) -> bool {
    0 <= i < entries.len() && entries[i].name@ == "level.dat"@
}

/// The subtree holds the structural marker file.
pub open spec fn has_marker(entries: Seq<WorldEntry>) -> bool {
    exists|i: int| marker_at(entries, i)
}

/// Subtrees holding the same data agree on the marker.
pub proof fn lemma_marker_by_view(a: Seq<WorldEntry>, b: Seq<WorldEntry>)
    requires
        entries_view(a) == entries_view(b),
    ensures
        has_marker(a) == has_marker(b),
{
    assert(a.len() == b.len()) by {
        assert(entries_view(a).len() == a.len());
        assert(entries_view(b).len() == b.len());
    }
    assert forall|i: int| 0 <= i < a.len() implies #[trigger] a[i].name@ == b[i].name@ by {
        assert(entries_view(a)[i] == entry_view(a[i]));
        assert(entries_view(b)[i] == entry_view(b[i]));
        assert(entries_view(a)[i] == entries_view(b)[i]);
    }
    if has_marker(a) {
        let i = choose|i: int| marker_at(a, i);
        assert(marker_at(b, i));
    }
    if has_marker(b) {
        let i = choose|i: int| marker_at(b, i);
        assert(marker_at(a, i));
    }
}

/// A subtree is valid managed world data: it exists and holds the marker.
pub open spec fn world_valid(world: Option<Vec<WorldEntry>>) -> bool {
    match world {
        Some(entries) => has_marker(entries@),
        None => false,
    }
}

/// Checks that a subtree exists and holds the structural marker file; only
/// the marker's presence is checked, never its content.
pub fn validate_world_root(world: &Option<Vec<WorldEntry>>) -> (r: Result<(), Error>)
    ensures
        r is Ok <==> world_valid(*world),
        r is Err ==> r == Err::<(), Error>(Error::SourceInvalid),
{
    match world.as_ref() {
        Some(entries) => {
            let mut i: usize = 0;
            while i < entries.len()
                invariant
                    i <= entries@.len(),
                    *world is Some && (*world)->0@ == entries@,
                    forall|j: int| 0 <= j < i ==> !marker_at(entries@, j),
                decreases entries@.len() - i,
            {
                if entries[i].name == String::from_str("level.dat") {
                    proof {
                        assert(marker_at(entries@, i as int));
                        assert(world_valid(*world));
                    }
                    return Ok(());
                }
                i = i + 1;
            }
            proof {
                assert(forall|j: int| !marker_at(entries@, j));
            }
            Err(Error::SourceInvalid)
        },
        None => Err(Error::SourceInvalid),
    }
}

/// Replaces the live world subtree with a copy of the source's entries: the
/// current subtree, if any, is removed entirely and recreated from the
/// source. The source must be valid managed world data.
pub fn set_world(live: &mut Option<Vec<WorldEntry>>, source: &Vec<WorldEntry>) -> (r: Result<
    (),
    Error,
>)
    ensures
        match r {
            Ok(_) => has_marker(source@) && (*final(live) matches Some(w) && entries_view(w@)
                == entries_view(source@)),
            Err(e) => e == Error::SourceInvalid && !has_marker(source@) && *final(live) == *old(
                live,
            ),
        },
{
    let copy = clone_entries(source);
    proof {
        lemma_marker_by_view(copy@, source@);
    }
    let copy_opt = Some(copy);
    match validate_world_root(&copy_opt) {
        Ok(_) => {},
        Err(e) => {
            return Err(e);
        },
    }
    match copy_opt {
        Some(c) => {
            *live = Some(c);
        },
        None => {},
    }
    Ok(())
}

} // verus!
