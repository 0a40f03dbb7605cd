//! Storage in memory: what a storage root holds, location by location.

use crate::error::StoreError;
use vstd::prelude::*;

verus! {

/// One stored file: where it is, and what it holds.
struct StateFile {
    location: String,
    contents: String,
}

/// The contents of a storage root, kept in memory. Each location holds at
/// most one value.
pub struct Storage {
    files: Vec<StateFile>,
}

/// The map from location to contents that a list of files stands for.
spec fn contents_by_location(files: Seq<StateFile>) -> Map<Seq<char>, Seq<char>>
    decreases files.len(),
{
    if files.len() == 0 {
        Map::empty()
    } else {
        contents_by_location(files.drop_last()).insert(
            files.last().location@,
            files.last().contents@,
        )
    }
}

/// Whether no two of the files have the same location.
spec fn distinct_locations(files: Seq<StateFile>) -> bool {
    forall|i: int, j: int|
        0 <= i < j < files.len() ==> (#[trigger] files[i]).location@ != (
        #[trigger] files[j]).location@
}

/// Files with distinct locations still have them when the last is left out.
proof fn lemma_distinct_without_last(files: Seq<StateFile>)
    requires
        distinct_locations(files),
        files.len() > 0,
    ensures
        distinct_locations(files.drop_last()),
{
    let init = files.drop_last();
    assert forall|a: int, b: int| 0 <= a < b < init.len() implies (#[trigger] init[a]).location@
        != (#[trigger] init[b]).location@ by {
        assert(init[a] == files[a] && init[b] == files[b]);
    }
}

/// A location is in the map exactly if one of the files has it.
proof fn lemma_domain(files: Seq<StateFile>, location: Seq<char>)
    ensures
        contents_by_location(files).contains_key(location) <==> exists|i: int|
            0 <= i < files.len() && (#[trigger] files[i]).location@ == location,
    decreases files.len(),
{
    if files.len() > 0 {
        let init = files.drop_last();
        lemma_domain(init, location);
        if exists|i: int| 0 <= i < files.len() && (#[trigger] files[i]).location@ == location {
            let i = choose|i: int|
                0 <= i < files.len() && (#[trigger] files[i]).location@ == location;
            if i < init.len() {
                assert(init[i].location@ == location);
            }
        }
    }
}

/// Where locations are distinct, the map holds each file's contents at the
/// file's location.
proof fn lemma_lookup(files: Seq<StateFile>, i: int)
    requires
        distinct_locations(files),
        0 <= i < files.len(),
    ensures
        contents_by_location(files).contains_key(files[i].location@),
        contents_by_location(files)[files[i].location@] == files[i].contents@,
    decreases files.len(),
{
    if i < files.len() - 1 {
        lemma_distinct_without_last(files);
        lemma_lookup(files.drop_last(), i);
    }
}

/// Replacing the contents of one file puts the new contents at its
/// location and changes nothing else.
proof fn lemma_replace(files: Seq<StateFile>, i: int, file: StateFile)
    requires
        distinct_locations(files),
        0 <= i < files.len(),
        file.location@ == files[i].location@,
    ensures
        distinct_locations(files.update(i, file)),
        contents_by_location(files.update(i, file)) == contents_by_location(files).insert(
            file.location@,
            file.contents@,
        ),
    decreases files.len(),
{
    let after = files.update(i, file);
    let init = files.drop_last();
    if i == files.len() - 1 {
        assert(after.drop_last() =~= init);
    } else {
        lemma_distinct_without_last(files);
        lemma_replace(init, i, file);
        assert(after.drop_last() =~= init.update(i, file));
    }
    assert(contents_by_location(after) =~= contents_by_location(files).insert(
        file.location@,
        file.contents@,
    ));
}

/// Taking one file out takes its location out of the map and changes
/// nothing else.
proof fn lemma_take_out(files: Seq<StateFile>, i: int)
    requires
        distinct_locations(files),
        0 <= i < files.len(),
    ensures
        distinct_locations(files.remove(i)),
        contents_by_location(files.remove(i)) == contents_by_location(files).remove(
            files[i].location@,
        ),
    decreases files.len(),
{
    let after = files.remove(i);
    let init = files.drop_last();
    lemma_distinct_without_last(files);
    if i == files.len() - 1 {
        lemma_domain(init, files[i].location@);
    } else {
        lemma_take_out(init, i);
        assert(after.drop_last() =~= init.remove(i));
    }
    assert(contents_by_location(after) =~= contents_by_location(files).remove(
        files[i].location@,
    ));
}

impl View for Storage {
    type V = Map<Seq<char>, Seq<char>>;

    /// The contents of each location that holds a value.
    closed spec fn view(&self) -> Map<Seq<char>, Seq<char>> {
        contents_by_location(self.files@)
    }
}

/// What a location holds once `added` was appended there: the earlier
/// contents, if there were any, and `added` after them.
pub open spec fn appended(
    files: Map<Seq<char>, Seq<char>>,
    location: Seq<char>,
    added: Seq<char>,
) -> Seq<char> {
    if files.contains_key(location) {
        files[location] + added
    } else {
        added
    }
}

impl Storage {
    #[verifier::type_invariant]
    spec fn well_formed(self) -> bool {
        distinct_locations(self.files@)
    }

    /// Storage that holds nothing.
    pub fn new() -> (storage: Storage)
        ensures
            storage@ == Map::<Seq<char>, Seq<char>>::empty(),
    {
        Storage { files: Vec::new() }
    }

    /// The index of the file at `location`, if there is one.
    fn find(&self, location: &String) -> (found: Option<usize>)
        ensures
            match found {
                Some(i) => i < self.files.len() && self.files[i as int].location@ == location@
                    && self@.contains_key(location@) && self@[location@]
                    == self.files[i as int].contents@,
                None => !self@.contains_key(location@),
            },
    {
        proof {
            use_type_invariant(self);
        }
        let mut i: usize = 0;
        while i < self.files.len()
            invariant
                i <= self.files.len(),
                distinct_locations(self.files@),
                forall|k: int| 0 <= k < i ==> (#[trigger] self.files[k]).location@ != location@,
            decreases self.files.len() - i,
        {
            if self.files[i].location == *location {
                proof {
                    lemma_lookup(self.files@, i as int);
                }
                return Some(i);
            }
            i += 1;
        }
        proof {
            lemma_domain(self.files@, location@);
        }
        None
    }

    /// Reads what `location` holds. Fails if it holds nothing.
    pub fn read(&self, location: &str) -> (found: Result<String, StoreError>)
        ensures
            match found {
                Ok(contents) => self@.contains_key(location@) && contents@ == self@[location@],
                Err(error) => !self@.contains_key(location@) && error == StoreError::NotFound,
            },
    {
        let wanted = location.to_owned();
        match self.find(&wanted) {
            Some(i) => Ok(self.files[i].contents.clone()),
            None => Err(StoreError::NotFound),
        }
    }

    /// Makes `location` hold `contents` and nothing else. Never fails.
    pub fn write(&mut self, location: &str, contents: &str) -> (written: Result<(), StoreError>)
        ensures
            written is Ok,
            final(self)@ == old(self)@.insert(location@, contents@),
    {
        let file = StateFile { location: location.to_owned(), contents: contents.to_owned() };
        self.put(file);
        Ok(())
    }

    /// Adds `added` after what `location` holds; a location that held
    /// nothing then holds `added`. Never fails.
    pub fn append(&mut self, location: &str, added: &str) -> (written: Result<(), StoreError>)
        ensures
            written is Ok,
            final(self)@ == old(self)@.insert(location@, appended(old(self)@, location@, added@)),
    {
        let wanted = location.to_owned();
        let mut contents = match self.find(&wanted) {
            Some(i) => self.files[i].contents.clone(),
            None => String::new(),
        };
        contents.append(added);
        self.put(StateFile { location: wanted, contents });
        Ok(())
    }

    /// Takes away what `location` holds. Fails if it held nothing.
    pub fn remove(&mut self, location: &str) -> (removed: Result<(), StoreError>)
        ensures
            final(self)@ == old(self)@.remove(location@),
            match removed {
                Ok(_) => old(self)@.contains_key(location@),
                Err(error) => !old(self)@.contains_key(location@) && error == StoreError::NotFound,
            },
    {
        proof {
            use_type_invariant(&*self);
        }
        let wanted = location.to_owned();
        match self.find(&wanted) {
            Some(i) => {
                let mut files = self.take_files();
                proof {
                    lemma_take_out(files@, i as int);
                }
                files.remove(i);
                self.files = files;
                Ok(())
            },
            None => Err(StoreError::NotFound),
        }
    }

    /// Moves the files out, so that they can be changed as a whole and put
    /// back.
    fn take_files(&mut self) -> (files: Vec<StateFile>)
        ensures
            files@ == old(self).files@,
            final(self).files@ == Seq::<StateFile>::empty(),
    {
        let mut files: Vec<StateFile> = Vec::new();
        core::mem::swap(&mut self.files, &mut files);
        files
    }

    /// Stores `file`, in place of the file at its location if there is one.
    fn put(&mut self, file: StateFile)
        ensures
            final(self)@ == old(self)@.insert(file.location@, file.contents@),
    {
        proof {
            use_type_invariant(&*self);
        }
        match self.find(&file.location) {
            Some(i) => {
                let mut files = self.take_files();
                proof {
                    lemma_replace(files@, i as int, file);
                }
                files.set(i, file);
                self.files = files;
            },
            None => {
                let mut files = self.take_files();
                proof {
                    lemma_domain(files@, file.location@);
                    assert(files@.push(file).drop_last() =~= files@);
                }
                files.push(file);
                self.files = files;
            },
        }
    }
}

} // verus!
