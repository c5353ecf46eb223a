//! The ukonf configuration language: its syntax tree and the parser
//! configuration that holds the files read so far.

pub mod ast;
pub mod runner;
pub mod value;

use vstd::prelude::*;

use self::ast::{AstFile, FileId};

verus! {

/// A source file that has been read: where it came from, its text and,
/// where it parsed, its syntax tree.
struct ParsedFile {
    path: String,
    file: String,
    ast: Option<AstFile>,
}

/// The files read so far, each found again by its [`FileId`].
struct Files {
    files: Vec<ParsedFile>,
}

impl Files {
    closed spec fn view_files(&self) -> Seq<(Seq<char>, Seq<char>)> {
        self.files@.map_values(|f: ParsedFile| (f.path@, f.file@))
    }

    closed spec fn view_asts(&self) -> Seq<Option<AstFile>> {
        self.files@.map_values(|f: ParsedFile| f.ast)
    }

    fn new() -> (res: Self)
        ensures
            res.view_files() == Seq::<(Seq<char>, Seq<char>)>::empty(),
            res.view_asts() == Seq::<Option<AstFile>>::empty(),
    {
        let res = Files { files: Vec::new() };
        proof {
            assert(res.view_files() =~= Seq::<(Seq<char>, Seq<char>)>::empty());
            assert(res.view_asts() =~= Seq::<Option<AstFile>>::empty());
        }
        res
    }

    /// Records a file and returns its id, the next free index.
    fn add_file(&mut self, path: String, file: String, ast: Option<AstFile>) -> (res: FileId)
        ensures
            final(self).view_files() == old(self).view_files().push((path@, file@)),
            final(self).view_asts() == old(self).view_asts().push(ast),
            res.0 == old(self).view_files().len(),
    {
        let ghost pv = path@;
        let ghost fv = file@;
        let ghost av = ast;
        self.files.push(ParsedFile { path, file, ast });
        proof {
            assert(self.view_files() =~= old(self).view_files().push((pv, fv)));
            assert(self.view_asts() =~= old(self).view_asts().push(av));
        }
        FileId(self.files.len() - 1)
    }

    fn get_ast(&self, id: FileId) -> (res: Option<&AstFile>)
        requires
            id.0 < self.view_asts().len(),
        ensures
            match self.view_asts()[id.0 as int] {
                Some(a) => res == Some(&a),
                None => res is None,
            },
    {
        match &self.files[id.0].ast {
            Some(a) => Some(a),
            None => None,
        }
    }

    fn get_file_contents(&self, id: FileId) -> (res: &str)
        requires
            id.0 < self.view_files().len(),
        ensures
            res@ == self.view_files()[id.0 as int].1,
    {
        self.files[id.0].file.as_str()
    }

    fn get_path(&self, id: FileId) -> (res: &str)
        requires
            id.0 < self.view_files().len(),
        ensures
            res@ == self.view_files()[id.0 as int].0,
    {
        self.files[id.0].path.as_str()
    }

    /// The id that the next recorded file will get.
    fn new_file_id(&self) -> (res: FileId)
        ensures
            res.0 == self.view_files().len(),
    {
        FileId(self.files.len())
    }
}

/// The directories searched for imported files, in order.
struct IncludeDirs {
    dirs: Vec<String>,
}

/// The settings shared by the parsers of one run: where imports are looked
/// up, and the files read so far.
pub struct UkonfConfig {
    include_dirs: IncludeDirs,
    files: Files,
}

impl UkonfConfig {
    /// The include directories, in search order.
    pub closed spec fn include_dirs_view(&self) -> Seq<Seq<char>> {
        self.include_dirs.dirs@.map_values(|d: String| d@)
    }

    /// The paths and texts of the files read so far, by id.
    pub closed spec fn files_view(&self) -> Seq<(Seq<char>, Seq<char>)> {
        self.files.view_files()
    }

    /// The syntax trees of the files read so far, by id, where they parsed.
    pub closed spec fn asts(&self) -> Seq<Option<AstFile>> {
        self.files.view_asts()
    }

    /// Records a file read from `path` with the text `file` and, where it
    /// parsed, its syntax tree; returns its id.
    pub fn add_file(&mut self, path: String, file: String, ast: Option<AstFile>) -> (res: FileId)
        ensures
            final(self).files_view() == old(self).files_view().push((path@, file@)),
            final(self).asts() == old(self).asts().push(ast),
            final(self).include_dirs_view() == old(self).include_dirs_view(),
            res.0 == old(self).files_view().len(),
    {
        self.files.add_file(path, file, ast)
    }

    /// The syntax tree of file `id`, where it parsed.
    pub fn get_ast(&self, id: FileId) -> (res: Option<&AstFile>)
        requires
            id.0 < self.asts().len(),
        ensures
            match self.asts()[id.0 as int] {
                Some(a) => res == Some(&a),
                None => res is None,
            },
    {
        self.files.get_ast(id)
    }

    /// A configuration that searches `include_dirs` and has read no file.
    pub fn new(include_dirs: Vec<String>) -> (res: Self)
        ensures
            res.include_dirs_view() == include_dirs@.map_values(|d: String| d@),
            res.files_view() == Seq::<(Seq<char>, Seq<char>)>::empty(),
            res.asts() == Seq::<Option<AstFile>>::empty(),
    {
        UkonfConfig { include_dirs: IncludeDirs { dirs: include_dirs }, files: Files::new() }
    }
}

/// Where the text that a parser reads comes from.
enum UkonfSourceFile {
    OnDisk(String),
    String(String),
}

impl UkonfSourceFile {
    /// The path recorded for the file: its path on disk, or `<string>`.
    fn path(&self) -> (res: String)
        ensures
            match self {
                UkonfSourceFile::OnDisk(p) => res@ == p@,
                UkonfSourceFile::String(_) => res@ == "<string>"@,
            },
    {
        match self {
            UkonfSourceFile::OnDisk(p) => p.clone(),
            UkonfSourceFile::String(_) => "<string>".to_owned(),
        }
    }
}

/// A parser for one source file under a configuration.
pub struct UkonfParser {
    config: UkonfConfig,
    current_file: UkonfSourceFile,
}

impl UkonfParser {
    fn new(file: UkonfSourceFile, config: UkonfConfig) -> (res: Self)
        ensures
            res.config == config,
            res.current_file == file,
    {
        UkonfParser { config, current_file: file }
    }
}

} // verus!
