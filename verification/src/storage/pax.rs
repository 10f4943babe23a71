//! The PAX segment files of a collection.

use vstd::prelude::*;
use vstd::string::*;
use crate::text::chars::{chars_of, lemma_views_push, views};
use crate::text::search::{ends_with, has_part_at};

verus! {

/// A file of a directory.
#[derive(Debug)]
pub struct DirEntry {
    pub name: String,
    pub size: u64,
}

impl View for DirEntry {
    type V = (Seq<char>, u64);

    open spec fn view(&self) -> (Seq<char>, u64) {
        (self.name@, self.size)
    }
}

/// A part of a file that one reader reads.
#[derive(Debug)]
pub struct FileSplit {
    pub file_path: String,
    pub block_id: u32,
    pub offset: u64,
    pub length: u64,
    pub record_count: u64,
    /// The size of the whole file, where it is known.
    pub object_size: Option<u64>,
}

pub struct SplitModel {
    pub file_path: Seq<char>,
    pub block_id: u32,
    pub offset: u64,
    pub length: u64,
    pub record_count: u64,
    pub object_size: Option<u64>,
}

impl View for FileSplit {
    type V = SplitModel;

    open spec fn view(&self) -> SplitModel {
        SplitModel {
            file_path: self.file_path@,
            block_id: self.block_id,
            offset: self.offset,
            length: self.length,
            record_count: self.record_count,
            object_size: self.object_size,
        }
    }
}

/// What the listing of a directory gave.
#[derive(Debug)]
pub enum DirListing {
    Entries(Vec<DirEntry>),
    NotFound,
    Failed(String),
}

/// The split of a segment: the whole file, with its size on record.
pub open spec fn segment_split(base: Seq<char>, entry: (Seq<char>, u64)) -> SplitModel {
    SplitModel {
        file_path: base + "/"@ + entry.0,
        block_id: 0,
        offset: 0,
        length: entry.1,
        record_count: 0,
        object_size: Some(entry.1),
    }
}

/// The splits of the segments among the files of a directory, in their order.
pub open spec fn segment_splits(base: Seq<char>, entries: Seq<(Seq<char>, u64)>) -> Seq<SplitModel>
    decreases entries.len(),
{
    if entries.len() == 0 {
        Seq::empty()
    } else {
        let rest = segment_splits(base, entries.drop_last());
        if ends_with(entries.last().0, ".pax"@) {
            rest.push(segment_split(base, entries.last()))
        } else {
            rest
        }
    }
}

fn is_pax_name(name: &str) -> (r: bool)
    ensures
        r == ends_with(name@, ".pax"@),
{
    let n: Vec<char> = chars_of(name);
    let p: Vec<char> = chars_of(".pax");
    if n.len() < p.len() {
        return false;
    }
    has_part_at(n.as_slice(), n.len() - p.len(), p.as_slice())
}

/// The splits of the PAX segments of a directory, from what its listing gave. A
/// directory that is missing has none.
pub fn discover_pax_segments(base_path: &str, listing: DirListing) -> (r: Result<
    Vec<FileSplit>,
    String,
>)
    ensures
        match listing {
            DirListing::Entries(entries) => r matches Ok(v) && views(v@) == segment_splits(
                base_path@,
                views(entries@),
            ),
            DirListing::NotFound => r matches Ok(v) && v@.len() == 0,
            DirListing::Failed(e) => r == Err::<Vec<FileSplit>, String>(e),
        },
{
    let entries: Vec<DirEntry> = match listing {
        DirListing::NotFound => {
            return Ok(Vec::new());
        },
        DirListing::Failed(e) => {
            return Err(e);
        },
        DirListing::Entries(entries) => entries,
    };
    let ghost all = views(entries@);
    let mut splits: Vec<FileSplit> = Vec::new();
    let mut i: usize = 0;
    assert(all.take(0) =~= Seq::empty());
    assert(views(splits@) =~= Seq::empty());
    while i < entries.len()
        invariant
            i <= entries@.len(),
            all == views(entries@),
            views(splits@) == segment_splits(base_path@, all.take(i as int)),
        decreases entries@.len() - i,
    {
        assert(all.take(i + 1).drop_last() =~= all.take(i as int));
        assert(all[i as int] == entries@[i as int]@);
        if is_pax_name(entries[i].name.as_str()) {
            let mut file_path: String = base_path.to_owned();
            file_path.append("/");
            file_path.append(entries[i].name.as_str());
            let split: FileSplit = FileSplit {
                file_path,
                block_id: 0,
                offset: 0,
                length: entries[i].size,
                record_count: 0,
                object_size: Some(entries[i].size),
            };
            proof {
                lemma_views_push(splits@, split);
            }
            splits.push(split);
        }
        i += 1;
    }
    assert(all.take(i as int) =~= all);
    Ok(splits)
}

} // verus!
