//! What is left to do at the mount point once the filesystem is unmounted.
use vstd::prelude::*;

verus! {

/// An entry of the directory below the mount point.
pub struct DirEntry {
    pub name: Vec<u8>,
    pub is_file: bool,
}

/// The names of the plain files among the entries; an entry that could not be read
/// is passed over.
pub open spec fn file_names(entries: Seq<Option<DirEntry>>) -> Seq<Seq<u8>>
    decreases entries.len(),
{
    if entries.len() == 0 {
        Seq::empty()
    } else {
        let before = file_names(entries.drop_last());
        match entries.last() {
            Some(entry) if entry.is_file => before.push(entry.name@),
            _ => before,
        }
    }
}

/// The files that are to be removed: each holds the content of one inode, and nobody
/// else sees it.
pub fn leftover_files(entries: &Vec<Option<DirEntry>>) -> (r: Vec<Vec<u8>>)
    ensures
        r@.map_values(|name: Vec<u8>| name@) == file_names(entries@),
{
    let mut names: Vec<Vec<u8>> = Vec::new();
    let mut i: usize = 0;
    assert(names@.map_values(|name: Vec<u8>| name@) =~= file_names(entries@.take(0)));
    while i < entries.len()
        invariant
            i <= entries@.len(),
            names@.map_values(|name: Vec<u8>| name@) == file_names(entries@.take(i as int)),
        decreases entries.len() - i,
    {
        let ghost done = names@.map_values(|name: Vec<u8>| name@);
        proof {
            assert(entries@.take(i + 1).drop_last() =~= entries@.take(i as int));
            assert(entries@.take(i + 1).last() == entries@[i as int]);
        }
        if let Some(entry) = &entries[i] {
            if entry.is_file {
                let name = entry.name.clone();
                assert(name@ =~= entry.name@);
                names.push(name);
                assert(names@.map_values(|name: Vec<u8>| name@) =~= done.push(entry.name@));
            }
        }
        i = i + 1;
    }
    assert(entries@.take(entries@.len() as int) =~= entries@);
    names
}

} // verus!
