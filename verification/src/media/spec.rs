//! Descriptions of a medium and of a file requested from it.

use vstd::prelude::*;
use crate::paths::opt_paths_equal;
use crate::paths::opt_text;
use crate::paths::same_opt_path;
use crate::tribool::Tribool;

verus! {

/// Describes a medium: its label, its number within a set, and the path of
/// a file whose presence on the medium identifies it. Without that path two
/// media cannot be told apart by what they hold.
#[derive(Debug)]
pub struct MediaSpec {
    pub label: String,
    pub medianr: u16,
    pub verify_data_path: Option<String>,
}

/// The mathematical value of a [`MediaSpec`].
pub struct MediaSpecView {
    pub label: Seq<char>,
    pub medianr: u16,
    pub verify_data_path: Option<Seq<char>>,
}

impl View for MediaSpec {
    type V = MediaSpecView;

    open spec fn view(&self) -> MediaSpecView {
        MediaSpecView {
            label: self.label@,
            medianr: self.medianr,
            verify_data_path: opt_text(self.verify_data_path),
        }
    }
}

/// Whether two descriptions name the same medium. Different verify paths:
/// no. The same verify path: yes exactly if the media numbers agree. No
/// verify path on either side: it cannot be told.
pub open spec fn same_medium(a: MediaSpecView, b: MediaSpecView) -> Tribool {
    if !same_opt_path(a.verify_data_path, b.verify_data_path) {
        Tribool::False
    } else if a.verify_data_path is Some {
        if a.medianr == b.medianr {
            Tribool::True
        } else {
            Tribool::False
        }
    } else {
        Tribool::Indeterminate
    }
}

impl Clone for MediaSpec {
    fn clone(&self) -> (r: Self)
        ensures
            r@ == self@,
    {
        MediaSpec {
            label: self.label.clone(),
            medianr: self.medianr,
            verify_data_path: match &self.verify_data_path {
                Some(p) => Some(p.clone()),
                None => None,
            },
        }
    }
}

impl MediaSpec {
    /// Compares this description with another one.
    pub fn is_same_medium(&self, other: &MediaSpec) -> (t: Tribool)
        ensures
            t == same_medium(self@, other@),
    {
        if !opt_paths_equal(&self.verify_data_path, &other.verify_data_path) {
            return Tribool::from_bool(false);
        }
        if self.verify_data_path.is_some() {
            return Tribool::from_bool(self.medianr == other.medianr);
        }
        Tribool::Indeterminate
    }
}

/// A description is never found different from itself: with a verify path
/// the comparison says yes, without one it cannot tell.
pub proof fn lemma_same_medium_reflexive(a: MediaSpecView)
    ensures
        same_medium(a, a) == (if a.verify_data_path is Some {
            Tribool::True
        } else {
            Tribool::Indeterminate
        }),
        same_medium(a, a) != Tribool::False,
{
}

/// The comparison gives the same answer in both directions.
pub proof fn lemma_same_medium_symmetric(a: MediaSpecView, b: MediaSpecView)
    ensures
        same_medium(a, b) == same_medium(b, a),
{
}

/// The comparison cannot tell exactly when neither side has a verify path.
pub proof fn lemma_same_medium_indeterminate(a: MediaSpecView, b: MediaSpecView)
    ensures
        same_medium(a, b) == Tribool::Indeterminate <==> (a.verify_data_path is None
            && b.verify_data_path is None),
{
}

/// Describes a file requested from a medium. The sizes and the delta file
/// are carried for later verification and decide nothing yet.
#[derive(Clone, Debug)]
pub struct FileSpec {
    pub check_exists_only: bool,
    pub optional: bool,
    pub download_size: u64,
    pub open_size: u64,
    pub header_size: u64,
    pub deltafile: String,
}

/// The mathematical value of a [`FileSpec`].
pub struct FileSpecView {
    pub check_exists_only: bool,
    pub optional: bool,
    pub download_size: u64,
    pub open_size: u64,
    pub header_size: u64,
    pub deltafile: Seq<char>,
}

impl View for FileSpec {
    type V = FileSpecView;

    open spec fn view(&self) -> FileSpecView {
        FileSpecView {
            check_exists_only: self.check_exists_only,
            optional: self.optional,
            download_size: self.download_size,
            open_size: self.open_size,
            header_size: self.header_size,
            deltafile: self.deltafile@,
        }
    }
}

} // verus!
