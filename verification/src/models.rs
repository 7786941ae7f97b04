//! Plain data types shared by the services.
use vstd::prelude::*;

verus! {

/// Outcome counts of a batch file operation, with one message per notable item.
#[derive(Debug, Clone, PartialEq, Eq)]
pub struct OperationReport {
    pub succeeded: usize,
    pub conflicted: usize,
    pub skipped: usize,
    pub messages: Vec<String>,
}

impl OperationReport {
    /// A report with all counts zero and no messages.
    pub fn empty() -> (r: OperationReport)
        ensures
            r.succeeded == 0,
            r.conflicted == 0,
            r.skipped == 0,
            r.messages@ == Seq::<String>::empty(),
    {
        OperationReport { succeeded: 0, conflicted: 0, skipped: 0, messages: Vec::new() }
    }
}

/// One entry of a directory listing as read from the file system.
#[derive(Debug, Clone, PartialEq, Eq)]
pub struct DirEntryInfo {
    /// The entry's file name.
    pub name: String,
    /// Whether the entry is a folder (its own type, links not followed).
    pub is_dir: bool,
    /// Whether the entry is, or links to, a regular file.
    pub is_file: bool,
}

/// One image of a folder listing.
#[derive(Debug, Clone, PartialEq, Eq)]
pub struct ImageEntry {
    pub path: String,
    pub file_name: String,
    pub has_tag_file: bool,
    pub thumbnail_available: bool,
}

/// A tag and how often it occurs.
#[derive(Debug, Clone, PartialEq, Eq)]
pub struct TagCount {
    pub tag: String,
    pub count: usize,
}

/// Kind of sorting operation.
#[derive(Debug, Clone, Copy, PartialEq, Eq, Structural)]
pub enum SortingOperation {
    Move,
    Copy,
    Gather,
    Distribute,
}

/// Family of a tagging model.
#[derive(Debug, Clone, Copy, PartialEq, Eq, Structural)]
pub enum ModelFamily {
    Wd14,
    MlDanbooru,
}

/// Where a model variant is fetched from.
#[derive(Debug, Clone, PartialEq, Eq)]
pub struct ModelSource {
    pub repo: String,
    pub onnx_file: String,
    pub tag_files: Vec<String>,
}

/// A selectable model variant.
#[derive(Debug, Clone, PartialEq, Eq)]
pub struct ModelVariant {
    pub id: String,
    pub display_name: String,
    pub family: ModelFamily,
    pub source: ModelSource,
}

/// Whether a variant's assets are present on disk.
#[derive(Debug, Clone, PartialEq, Eq)]
pub struct VariantPresence {
    pub variant: ModelVariant,
    pub present: bool,
}

/// Category of a tag label.
#[derive(Debug, Clone, Copy, PartialEq, Eq, Structural)]
pub enum TagCategory {
    General,
    Character,
    Rating,
}

/// One label of a tag definition.
#[derive(Debug, Clone, PartialEq, Eq)]
pub struct LabelDef {
    pub name: String,
    pub category: TagCategory,
}

/// Order of the colour channels in a model's input.
#[derive(Debug, Clone, Copy, PartialEq, Eq, Structural)]
pub enum ChannelOrder {
    Bgr,
    Rgb,
}

/// Progress of a long-running operation.
#[derive(Debug, Clone, PartialEq, Eq)]
pub struct Progress {
    pub operation_id: String,
    pub done: usize,
    pub total: usize,
}

/// A copy of a vector of strings.
pub fn clone_strings(v: &Vec<String>) -> (r: Vec<String>)
    ensures
        r@ == v@,
{
    let mut r: Vec<String> = Vec::new();
    let mut i: usize = 0;
    while i < v.len()
        invariant
            i <= v.len(),
            r@ == v@.take(i as int),
        decreases v.len() - i,
    {
        r.push(v[i].clone());
        i += 1;
        proof {
            assert(v@.take(i as int) =~= v@.take(i - 1).push(v@[i - 1]));
        }
    }
    proof {
        assert(v@.take(v.len() as int) =~= v@);
    }
    r
}

impl View for OperationReport {
    type V = (usize, usize, usize, Seq<Seq<char>>);

    open spec fn view(&self) -> Self::V {
        (self.succeeded, self.conflicted, self.skipped, crate::logic::text::string_views(self.messages@))
    }
}

impl View for ImageEntry {
    type V = (Seq<char>, Seq<char>, bool, bool);

    open spec fn view(&self) -> Self::V {
        (self.path@, self.file_name@, self.has_tag_file, self.thumbnail_available)
    }
}

impl View for TagCount {
    type V = (Seq<char>, usize);

    open spec fn view(&self) -> Self::V {
        (self.tag@, self.count)
    }
}

impl View for LabelDef {
    type V = (Seq<char>, TagCategory);

    open spec fn view(&self) -> Self::V {
        (self.name@, self.category)
    }
}

impl View for ModelSource {
    type V = (Seq<char>, Seq<char>, Seq<Seq<char>>);

    open spec fn view(&self) -> Self::V {
        (self.repo@, self.onnx_file@, crate::logic::text::string_views(self.tag_files@))
    }
}

impl View for ModelVariant {
    type V = (Seq<char>, Seq<char>, ModelFamily, (Seq<char>, Seq<char>, Seq<Seq<char>>));

    open spec fn view(&self) -> Self::V {
        (self.id@, self.display_name@, self.family, self.source@)
    }
}

impl View for VariantPresence {
    type V = (
        (Seq<char>, Seq<char>, ModelFamily, (Seq<char>, Seq<char>, Seq<Seq<char>>)),
        bool,
    );

    open spec fn view(&self) -> Self::V {
        (self.variant@, self.present)
    }
}

/// Views of a sequence of viewable values.
pub open spec fn seq_views<T: View>(v: Seq<T>) -> Seq<T::V> {
    v.map_values(|x: T| x@)
}

impl ModelSource {
    /// A field-by-field copy.
    pub fn duplicate(&self) -> (r: ModelSource)
        ensures
            r@ == self@,
    {
        ModelSource {
            repo: self.repo.clone(),
            onnx_file: self.onnx_file.clone(),
            tag_files: clone_strings(&self.tag_files),
        }
    }
}

impl ModelVariant {
    /// A field-by-field copy.
    pub fn duplicate(&self) -> (r: ModelVariant)
        ensures
            r@ == self@,
    {
        ModelVariant {
            id: self.id.clone(),
            display_name: self.display_name.clone(),
            family: self.family,
            source: self.source.duplicate(),
        }
    }
}

} // verus!
