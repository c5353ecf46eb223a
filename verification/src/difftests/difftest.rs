//! The files of one difftest directory, and the stages a difftest goes
//! through: raw profiles, merged profile data, exported coverage.

use vstd::prelude::*;

use crate::paths::{
    extension, file_name, joined_path, path_extension, path_file_name, path_join, path_strip_prefix,
    strip_prefix,
};

verus! {

/// What `cargo difftests` found in a difftest directory.
#[derive(Debug)]
pub struct Difftest {
    dir: String,
    self_profraw: String,
    other_profraws: Vec<String>,
    self_json: String,
    profdata_file: Option<String>,
    exported_profdata_file: Option<String>,
    index_data: Option<String>,
    cleaned: bool,
}

pub open spec fn opt_view(o: Option<String>) -> Option<Seq<char>> {
    match o {
        Some(s) => Some(s@),
        None => None,
    }
}

/// The mathematical content of a [`Difftest`].
pub struct DifftestView {
    pub dir: Seq<char>,
    pub self_profraw: Seq<char>,
    pub other_profraws: Seq<Seq<char>>,
    pub self_json: Seq<char>,
    pub profdata_file: Option<Seq<char>>,
    pub exported_profdata_file: Option<Seq<char>>,
    pub index_data: Option<Seq<char>>,
    pub cleaned: bool,
}

impl View for Difftest {
    type V = DifftestView;

    closed spec fn view(&self) -> DifftestView {
        DifftestView {
            dir: self.dir@,
            self_profraw: self.self_profraw@,
            other_profraws: self.other_profraws@.map_values(|s: String| s@),
            self_json: self.self_json@,
            profdata_file: opt_view(self.profdata_file),
            exported_profdata_file: opt_view(self.exported_profdata_file),
            index_data: opt_view(self.index_data),
            cleaned: self.cleaned,
        }
    }
}

/// The difftest has been cleaned: its profiles are gone.
#[derive(Debug, Clone, Copy, PartialEq, Eq)]
pub struct DifftestsCleaned;

/// A difftest whose profiles have been merged into profile data.
pub struct HasProfdata<'r> {
    difftest: &'r Difftest,
}

/// A difftest whose profile data has been exported as coverage data.
pub struct HasExportedProfdata<'r> {
    difftest: &'r Difftest,
}

impl<'r> HasProfdata<'r> {
    /// The difftest has profile data.
    #[verifier::type_invariant]
    spec fn has_path(self) -> bool {
        (*self.difftest)@.profdata_file is Some
    }

    pub closed spec fn difftest_view(&self) -> DifftestView {
        (*self.difftest)@
    }

    /// The merged profile data file.
    pub fn get_profdata(&self) -> (res: &str)
        ensures
            self.difftest_view().profdata_file == Some(res@),
    {
        proof {
            use_type_invariant(self);
        }
        match &self.difftest.profdata_file {
            Some(p) => p.as_str(),
            None => "",
        }
    }

    /// The difftest, known to have exported coverage data; its profile data
    /// stays as it was.
    pub fn assert_has_exported_profdata(self) -> (res: HasExportedProfdata<'r>)
        requires
            self.difftest_view().exported_profdata_file is Some,
        ensures
            res.difftest_view() == self.difftest_view(),
    {
        proof {
            use_type_invariant(&self);
        }
        HasExportedProfdata { difftest: self.difftest }
    }
}

impl<'r> HasExportedProfdata<'r> {
    /// The difftest has profile data and exported coverage data.
    #[verifier::type_invariant]
    spec fn has_paths(self) -> bool {
        &&& (*self.difftest)@.profdata_file is Some
        &&& (*self.difftest)@.exported_profdata_file is Some
    }

    pub closed spec fn difftest_view(&self) -> DifftestView {
        (*self.difftest)@
    }

    /// The exported coverage data file.
    pub fn get_exported_profdata(&self) -> (res: &str)
        ensures
            self.difftest_view().exported_profdata_file == Some(res@),
    {
        proof {
            use_type_invariant(self);
        }
        match &self.difftest.exported_profdata_file {
            Some(p) => p.as_str(),
            None => "",
        }
    }

    /// The merged profile data file.
    pub fn get_profdata(&self) -> (res: &str)
        ensures
            self.difftest_view().profdata_file == Some(res@),
    {
        proof {
            use_type_invariant(self);
        }
        match &self.difftest.profdata_file {
            Some(p) => p.as_str(),
            None => "",
        }
    }
}

impl Difftest {
    /// The record of a difftest directory as discovery found it.
    pub fn new(
        dir: String,
        self_profraw: String,
        self_json: String,
        scan: DirScan,
        exported_profdata_file: Option<String>,
        index_data: Option<String>,
    ) -> (res: Self)
        ensures
            res@ == (DifftestView {
                dir: dir@,
                self_profraw: self_profraw@,
                other_profraws: scan.other_profraws@.map_values(|s: String| s@),
                self_json: self_json@,
                profdata_file: opt_view(scan.profdata_file),
                exported_profdata_file: opt_view(exported_profdata_file),
                index_data: opt_view(index_data),
                cleaned: scan.cleaned,
            }),
    {
        Difftest {
            dir,
            self_profraw,
            other_profraws: scan.other_profraws,
            self_json,
            profdata_file: scan.profdata_file,
            exported_profdata_file,
            index_data,
            cleaned: scan.cleaned,
        }
    }

    /// The raw profile of the test itself.
    pub fn self_profraw(&self) -> (res: &str)
        ensures
            res@ == self@.self_profraw,
    {
        self.self_profraw.as_str()
    }

    /// The description of the test.
    pub fn self_json(&self) -> (res: &str)
        ensures
            res@ == self@.self_json,
    {
        self.self_json.as_str()
    }

    /// The raw profiles of the test's child processes.
    pub fn other_profraws(&self) -> (res: &[String])
        ensures
            res@.map_values(|s: String| s@) == self@.other_profraws,
    {
        self.other_profraws.as_slice()
    }

    /// Whether merging the raw profiles has anything to do: not once the
    /// difftest was cleaned (an error), nor where profile data exists and
    /// merging is not forced.
    pub fn merge_needed(&self, force: bool) -> (res: Result<bool, DifftestsCleaned>)
        ensures
            match res {
                Ok(b) => !self@.cleaned && b == (self@.profdata_file is None || force),
                Err(_) => self@.cleaned,
            },
    {
        if self.cleaned {
            return Err(DifftestsCleaned);
        }
        Ok(!(self.profdata_file.is_some() && !force))
    }

    /// Records the merged profile data file.
    pub fn set_profdata_file(&mut self, p: String)
        ensures
            final(self)@ == (DifftestView { profdata_file: Some(p@), ..old(self)@ }),
    {
        self.profdata_file = Some(p);
    }

    /// Records the exported coverage data file.
    pub fn set_exported_profdata_file(&mut self, p: String)
        ensures
            final(self)@ == (DifftestView { exported_profdata_file: Some(p@), ..old(self)@ }),
    {
        self.exported_profdata_file = Some(p);
    }

    /// Records that the difftest was cleaned: its profile data, exported
    /// data and the other raw profiles are gone.
    pub fn mark_cleaned(&mut self)
        ensures
            final(self)@ == (DifftestView {
                profdata_file: None,
                exported_profdata_file: None,
                other_profraws: Seq::empty(),
                cleaned: true,
                ..old(self)@
            }),
    {
        self.profdata_file = None;
        self.exported_profdata_file = None;
        self.other_profraws = Vec::new();
        self.cleaned = true;
        proof {
            assert(self@.other_profraws =~= Seq::<Seq<char>>::empty());
        }
    }

    /// The difftest directory.
    pub fn dir(&self) -> (res: &str)
        ensures
            res@ == self@.dir,
    {
        self.dir.as_str()
    }

    /// Whether a test index was found for the difftest.
    pub fn has_index(&self) -> (res: bool)
        ensures
            res == self@.index_data is Some,
    {
        self.index_data.is_some()
    }

    /// The difftest as one with profile data, where it has some and has
    /// not been cleaned.
    pub fn has_profdata(&mut self) -> (res: Option<HasProfdata<'_>>)
        ensures
            *final(self) == *old(self),
            match res {
                Some(h) => h.difftest_view() == old(self)@ && !old(self)@.cleaned
                    && old(self)@.profdata_file is Some,
                None => old(self)@.cleaned || old(self)@.profdata_file is None,
            },
    {
        if self.cleaned {
            return None;
        }
        if self.profdata_file.is_some() {
            Some(HasProfdata { difftest: &*self })
        } else {
            None
        }
    }

    /// The difftest as one with profile data; it must not have been
    /// cleaned, and must have some.
    pub fn assert_has_profdata(&mut self) -> (res: HasProfdata<'_>)
        requires
            !old(self)@.cleaned,
            old(self)@.profdata_file is Some,
        ensures
            *final(self) == *old(self),
            res.difftest_view() == old(self)@,
    {
        HasProfdata { difftest: &*self }
    }

    /// The difftest as one with exported coverage data; it must not have
    /// been cleaned, and must have profile data and exported coverage data.
    pub fn assert_has_exported_profdata(&mut self) -> (res: HasExportedProfdata<'_>)
        requires
            !old(self)@.cleaned,
            old(self)@.profdata_file is Some,
            old(self)@.exported_profdata_file is Some,
        ensures
            *final(self) == *old(self),
            res.difftest_view() == old(self)@,
    {
        HasExportedProfdata { difftest: &*self }
    }
}

/// Maps the directory of a difftest to the path of its test index.
#[derive(Debug, Clone, PartialEq, Eq)]
pub enum DiscoverIndexPathResolver {
    /// Replaces the leading path `from` by `to`.
    Remap { from: String, to: String },
}

impl DiscoverIndexPathResolver {
    /// The index path for the difftest directory `p`: `p` with the leading
    /// `from` replaced by `to`, or `None` where `p` does not start with
    /// `from`.
    pub fn resolve(&self, p: &str) -> (res: Option<String>)
        ensures
            match self {
                DiscoverIndexPathResolver::Remap { from, to } => match path_strip_prefix(p@, from@) {
                    Some(rest) => res matches Some(r) && r@ == joined_path(to@, rest),
                    None => res is None,
                },
            },
    {
        match self {
            DiscoverIndexPathResolver::Remap { from, to } => match strip_prefix(p, from.as_str()) {
                Some(rest) => Some(path_join(to.as_str(), rest.as_str())),
                None => None,
            },
        }
    }
}

/// What the files of a difftest directory say: the other raw profiles,
/// the first profile data file, and whether the difftest was cleaned.
pub struct DirScan {
    pub other_profraws: Vec<String>,
    pub profdata_file: Option<String>,
    pub cleaned: bool,
}

/// A file of a difftest directory is another raw profile: it has the
/// `profraw` extension and is not the test's own profile.
pub open spec fn is_other_profraw(p: Seq<char>, self_profile_name: Seq<char>) -> bool {
    path_extension(p) == Some("profraw"@) && path_file_name(p) != Some(self_profile_name)
}

pub open spec fn is_profdata(p: Seq<char>) -> bool {
    path_extension(p) == Some("profdata"@)
}

/// The file marks a cleaned difftest.
pub open spec fn is_cleaned_marker(p: Seq<char>, self_profile_name: Seq<char>) -> bool {
    !is_other_profraw(p, self_profile_name) && !is_profdata(p) && path_file_name(p) == Some(
        "cargo_difftests_cleaned"@,
    )
}

/// The other raw profiles among `files`, in order.
pub open spec fn other_profraws_spec(files: Seq<Seq<char>>, self_profile_name: Seq<char>) -> Seq<Seq<char>>
    decreases files.len(),
{
    if files.len() == 0 {
        Seq::empty()
    } else {
        other_profraws_spec(files.drop_last(), self_profile_name) + if is_other_profraw(
            files.last(),
            self_profile_name,
        ) {
            seq![files.last()]
        } else {
            Seq::empty()
        }
    }
}

/// The first profile data file among `files` that is not another raw
/// profile.
pub open spec fn first_profdata(files: Seq<Seq<char>>, self_profile_name: Seq<char>) -> Option<Seq<char>>
    decreases files.len(),
{
    if files.len() == 0 {
        None
    } else {
        match first_profdata(files.drop_last(), self_profile_name) {
            Some(p) => Some(p),
            None => if !is_other_profraw(files.last(), self_profile_name) && is_profdata(
                files.last(),
            ) {
                Some(files.last())
            } else {
                None
            },
        }
    }
}

/// Sorts the regular files of a difftest directory, in the order listed:
/// raw profiles other than the test's own (`self_profile_name`), the
/// profile data (the first one found), and the marker of a cleaned
/// difftest.
pub fn scan_difftest_files(files: &Vec<String>, self_profile_name: &str) -> (res: DirScan)
    ensures
        res.other_profraws@.map_values(|s: String| s@) == other_profraws_spec(
            files@.map_values(|s: String| s@),
            self_profile_name@,
        ),
        opt_view(res.profdata_file) == first_profdata(files@.map_values(|s: String| s@), self_profile_name@),
        res.cleaned == exists|i: int|
            0 <= i < files@.len() && is_cleaned_marker(#[trigger] files@[i]@, self_profile_name@),
{
    let ghost fv = files@.map_values(|s: String| s@);
    let mut other: Vec<String> = Vec::new();
    let mut profdata: Option<String> = None;
    let mut cleaned = false;
    let mut i: usize = 0;
    proof {
        assert(fv.take(0) =~= Seq::<Seq<char>>::empty());
    }
    while i < files.len()
        invariant
            i <= files@.len(),
            fv == files@.map_values(|s: String| s@),
            other@.map_values(|s: String| s@) == other_profraws_spec(fv.take(i as int), self_profile_name@),
            opt_view(profdata) == first_profdata(fv.take(i as int), self_profile_name@),
            cleaned == exists|k: int| 0 <= k < i && is_cleaned_marker(#[trigger] files@[k]@, self_profile_name@),
        decreases files@.len() - i,
    {
        let p = files[i].as_str();
        let ext = extension(p);
        let name = file_name(p);
        proof {
            assert(fv.take(i + 1).drop_last() =~= fv.take(i as int));
            assert(fv.take(i + 1).last() == p@);
            reveal_strlit("profraw");
            reveal_strlit("profdata");
        }
        let is_profraw = match &ext {
            Some(e) => crate::text::str_eq(e.as_str(), "profraw"),
            None => false,
        };
        let is_self = match &name {
            Some(n) => crate::text::str_eq(n.as_str(), self_profile_name),
            None => false,
        };
        let ghost before_other = other@.map_values(|s: String| s@);
        let ghost before_cleaned = cleaned;
        if is_profraw && !is_self {
            other.push(files[i].clone());
            proof {
                assert(is_other_profraw(p@, self_profile_name@));
                assert(other@.map_values(|s: String| s@) =~= before_other.push(p@));
                assert(!is_cleaned_marker(p@, self_profile_name@));
            }
        } else {
            proof {
                assert(!is_other_profraw(p@, self_profile_name@));
                assert(other@.map_values(|s: String| s@) =~= before_other);
            }
            let is_pd = match &ext {
                Some(e) => crate::text::str_eq(e.as_str(), "profdata"),
                None => false,
            };
            if is_pd {
                if profdata.is_none() {
                    profdata = Some(files[i].clone());
                }
                proof {
                    assert(is_profdata(p@));
                    assert(!is_cleaned_marker(p@, self_profile_name@));
                }
            } else {
                proof {
                    assert(!is_profdata(p@));
                }
                let is_marker = match &name {
                    Some(n) => crate::text::str_eq(n.as_str(), "cargo_difftests_cleaned"),
                    None => false,
                };
                if is_marker {
                    cleaned = true;
                    proof {
                        assert(is_cleaned_marker(files@[i as int]@, self_profile_name@));
                    }
                } else {
                    proof {
                        assert(!is_cleaned_marker(p@, self_profile_name@));
                    }
                }
            }
        }
        i = i + 1;
    }
    proof {
        assert(fv.take(files@.len() as int) =~= fv);
    }
    DirScan { other_profraws: other, profdata_file: profdata, cleaned }
}

/// Whether a test index found for a difftest may be used: it exists, is a
/// regular file, and was written no earlier than the test's description
/// (times in nanoseconds since the Unix epoch).
pub fn index_data_usable(exists: bool, is_file: bool, index_mtime: i128, self_json_mtime: i128) -> (res:
    bool)
    ensures
        res == (exists && is_file && index_mtime >= self_json_mtime),
{
    if !exists {
        return false;
    }
    if !is_file {
        return false;
    }
    !(index_mtime < self_json_mtime)
}

} // verus!
