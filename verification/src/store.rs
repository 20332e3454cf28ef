//! The store: the directory that keeps the templates, as the list of its
//! files. The library decides what the store holds and what a query
//! answers; reading and writing the directory is the caller's part.

use crate::path::file_stem;
use crate::template::{groups_of, parse_spec, ErrorKind, Template, TemplateError, TemplateView};
use crate::value::texts;
use vstd::prelude::*;

verus! {

/// The directory of the store, below the home directory.
pub const TEMPLATE_DIR: &'static str = ".skeleton";

/// The extension of the files of the store.
pub const TEMPLATE_EXTENSION: &'static str = ".skeleton";

/// A regular file below the root of the store.
#[derive(Debug)]
pub struct StoredFile {
    pub path: String,
    pub content: String,
}

/// What stands at the path of the store's root.
#[derive(Clone, Copy, Debug, PartialEq, Eq, Structural)]
pub enum RootState {
    /// A directory.
    Directory,
    /// Nothing.
    Missing,
    /// Something that is no directory.
    Occupied,
}

/// Why the store cannot be opened.
#[derive(Debug)]
pub enum StoreError {
    /// The root is, or cannot be made, a directory.
    DirectoryUnavailable { path: String },
}

/// What a refusal to open the store at `path` says.
pub open spec fn unavailable_message(path: Seq<char>) -> Seq<char> {
    "store directory `"@ + path + "` is unavailable"@
}

impl StoreError {
    /// What this refusal says, for a person to read.
    pub fn message(&self) -> (text: String)
        ensures
            self matches StoreError::DirectoryUnavailable { path } && text@ == unavailable_message(
                path@,
            ),
    {
        match self {
            StoreError::DirectoryUnavailable { path } => String::from_str(
                "store directory `",
            ).concat(path.as_str()).concat("` is unavailable"),
        }
    }
}

/// The files of a directory as contracts see them: paths with their
/// contents.
pub type Files = Seq<(Seq<char>, Seq<char>)>;

/// Some file of `files` has the path `path`.
pub open spec fn has_path(files: Files, path: Seq<char>) -> bool {
    exists|i: int| 0 <= i < files.len() && (#[trigger] files[i]).0 == path
}

/// The index of a file of `files` with the path `path`.
pub open spec fn path_index(files: Files, path: Seq<char>) -> int {
    choose|i: int| 0 <= i < files.len() && (#[trigger] files[i]).0 == path
}

/// No two files of `files` have the same path.
pub open spec fn distinct_paths(files: Files) -> bool {
    forall|i: int, j: int|
        0 <= i < j < files.len() ==> (#[trigger] files[i]).0 != (#[trigger] files[j]).0
}

/// `files` after `content` was written to `path`: over the file that was
/// there, or as a new file behind the others.
pub open spec fn put(files: Files, path: Seq<char>, content: Seq<char>) -> Files {
    if has_path(files, path) {
        files.update(path_index(files, path), (path, content))
    } else {
        files.push((path, content))
    }
}

/// `files` after the file at `path` was deleted.
pub open spec fn without(files: Files, path: Seq<char>) -> Files {
    if has_path(files, path) {
        files.remove(path_index(files, path))
    } else {
        files
    }
}

/// The path of the file that keeps the template named `name` in the store
/// at `root`.
pub open spec fn file_path(root: Seq<char>, name: Seq<char>) -> Seq<char> {
    root + seq!['/'] + name + ".skeleton"@
}

/// A name that stands for a file in the root of the store: it is not empty
/// and holds no `/`.
pub open spec fn plain_name(name: Seq<char>) -> bool {
    name.len() > 0 && forall|i: int| 0 <= i < name.len() ==> name[i] != '/'
}

/// The templates that the first `n` of `files` hold, in their order, or the
/// index and the refusal of the first file that holds none.
pub open spec fn parse_all(files: Files, n: int) -> Result<Seq<TemplateView>, (int, ErrorKind)>
    decreases n,
{
    if n <= 0 {
        Ok(Seq::empty())
    } else {
        match parse_all(files, n - 1) {
            Err(refusal) => Err(refusal),
            Ok(templates) => match parse_spec(files[n - 1].0, files[n - 1].1) {
                Err(kind) => Err((n - 1, kind)),
                Ok(template) => Ok(templates.push(template)),
            },
        }
    }
}

/// `template` belongs to one of `groups`: its variable `groups` is a
/// sequence, and one of its items is one of `groups`.
pub open spec fn in_groups(template: TemplateView, groups: Seq<Seq<char>>) -> bool {
    match groups_of(template.variables) {
        Some(items) => exists|i: int, j: int|
            0 <= i < items.len() && 0 <= j < groups.len() && #[trigger] items[i]
                == #[trigger] groups[j],
        None => false,
    }
}

/// Those of `templates` that a filter keeps: all of them where there is no
/// filter or an empty one, else those that belong to one of its groups.
pub open spec fn filtered(templates: Seq<TemplateView>, groups: Option<Seq<Seq<char>>>) -> Seq<
    TemplateView,
> {
    match groups {
        Some(wanted) => if wanted.len() == 0 {
            templates
        } else {
            templates.filter(|template: TemplateView| in_groups(template, wanted))
        },
        None => templates,
    }
}

/// What a listing of `files` under the filter `groups` answers.
pub open spec fn templates_spec(files: Files, groups: Option<Seq<Seq<char>>>) -> Result<
    Seq<TemplateView>,
    ErrorKind,
> {
    match parse_all(files, files.len() as int) {
        Ok(templates) => Ok(filtered(templates, groups)),
        Err(refusal) => Err(refusal.1),
    }
}

/// One of `templates` is named `name`.
pub open spec fn named(templates: Seq<TemplateView>, name: Seq<char>) -> bool {
    exists|i: int|
        0 <= i < templates.len() && file_stem((#[trigger] templates[i]).path) == Some(name)
}

/// What the question whether `files` hold a template named `name` answers.
pub open spec fn contains_spec(files: Files, name: Seq<char>) -> Result<bool, ErrorKind> {
    match parse_all(files, files.len() as int) {
        Ok(templates) => Ok(named(templates, name)),
        Err(refusal) => Err(refusal.1),
    }
}

/// The store: its root and the regular files below it, in the order in
/// which the directory gave them. No path occurs twice.
#[derive(Debug)]
pub struct Store {
    root: String,
    files: Vec<StoredFile>,
}

/// A [`Store`] as contracts see it.
pub struct StoreView {
    pub root: Seq<char>,
    pub files: Files,
}

/// The files of a store as contracts see them.
pub open spec fn files_view(files: Seq<StoredFile>) -> Files {
    Seq::new(files.len(), |i: int| (files[i].path@, files[i].content@))
}

/// The templates of a listing as contracts see them.
pub open spec fn templates_view(templates: Seq<Template>) -> Seq<TemplateView> {
    Seq::new(templates.len(), |i: int| templates[i]@)
}

/// What came of a listing, as contracts see it.
pub open spec fn listing_outcome(listed: Result<Vec<Template>, TemplateError>) -> Result<
    Seq<TemplateView>,
    ErrorKind,
> {
    match listed {
        Ok(templates) => Ok(templates_view(templates@)),
        Err(error) => Err(error.kind),
    }
}

/// The filter of a listing as contracts see it.
pub open spec fn filter_view(groups: Option<Vec<String>>) -> Option<Seq<Seq<char>>> {
    match groups {
        Some(wanted) => Some(texts(wanted@)),
        None => None,
    }
}

impl View for Store {
    type V = StoreView;

    closed spec fn view(&self) -> StoreView {
        StoreView { root: self.root@, files: files_view(self.files@) }
    }
}

/// Once a file is refused, the whole listing is, with that file's refusal.
pub proof fn lemma_parse_all_fails(files: Files, n: int, m: int)
    requires
        n <= m,
        parse_all(files, n) is Err,
    ensures
        parse_all(files, m) == parse_all(files, n),
    decreases m - n,
{
    if n < m {
        lemma_parse_all_fails(files, n, m - 1);
    }
}

/// Writing to a path keeps the paths distinct and changes the file at that
/// path alone.
pub proof fn lemma_put(files: Files, path: Seq<char>, content: Seq<char>)
    requires
        distinct_paths(files),
    ensures
        distinct_paths(put(files, path, content)),
        has_path(put(files, path, content), path),
        put(files, path, content)[path_index(put(files, path, content), path)] == (path, content),
{
    let after = put(files, path, content);
    let at = if has_path(files, path) {
        path_index(files, path)
    } else {
        files.len() as int
    };
    assert(after[at].0 == path);
    assert forall|i: int, j: int| 0 <= i < j < after.len() implies (#[trigger] after[i]).0 != (
    #[trigger] after[j]).0 by {
        if has_path(files, path) {
            assert(after[i].0 == files[i].0);
            assert(after[j].0 == files[j].0);
        } else if j < at {
            assert(after[i] == files[i]);
            assert(after[j] == files[j]);
        } else {
            assert(after[i] == files[i]);
        }
    }
    let found = path_index(after, path);
    if found != at {
        assert(after[found].0 == after[at].0);
    }
}

/// Deleting a path keeps the paths distinct and leaves no file at that path.
pub proof fn lemma_without(files: Files, path: Seq<char>)
    requires
        distinct_paths(files),
    ensures
        distinct_paths(without(files, path)),
        !has_path(without(files, path), path),
{
    let after = without(files, path);
    if has_path(files, path) {
        let at = path_index(files, path);
        assert forall|i: int, j: int| 0 <= i < j < after.len() implies (#[trigger] after[i]).0 != (
        #[trigger] after[j]).0 by {
            let before_i = if i < at { i } else { i + 1 };
            let before_j = if j < at { j } else { j + 1 };
            assert(after[i] == files[before_i]);
            assert(after[j] == files[before_j]);
        }
        if has_path(after, path) {
            let there = path_index(after, path);
            let before = if there < at { there } else { there + 1 };
            assert(after[there] == files[before]);
            assert(files[before].0 == files[at].0);
        }
    }
}

/// Tells whether one of `items` is one of `wanted`.
fn shares(items: &Vec<String>, wanted: &Vec<String>) -> (found: bool)
    ensures
        found == (exists|i: int, j: int|
            0 <= i < items@.len() && 0 <= j < wanted@.len() && #[trigger] texts(items@)[i]
                == #[trigger] texts(wanted@)[j]),
{
    let mut i: usize = 0;
    while i < items.len()
        invariant
            i <= items.len(),
            forall|a: int, b: int|
                0 <= a < i && 0 <= b < wanted@.len() ==> #[trigger] texts(items@)[a]
                    != #[trigger] texts(wanted@)[b],
        decreases items.len() - i,
    {
        let mut j: usize = 0;
        while j < wanted.len()
            invariant
                i < items.len(),
                j <= wanted.len(),
                forall|b: int|
                    0 <= b < j ==> texts(items@)[i as int] != #[trigger] texts(wanted@)[b],
            decreases wanted.len() - j,
        {
            if items[i] == wanted[j] {
                assert(texts(items@)[i as int] == texts(wanted@)[j as int]);
                return true;
            }
            j += 1;
        }
        i += 1;
    }
    false
}

/// Tells whether `template` belongs to one of `wanted`.
pub fn belongs(template: &Template, wanted: &Vec<String>) -> (found: bool)
    ensures
        found == in_groups(template@, texts(wanted@)),
{
    match template.groups() {
        Some(items) => shares(&items, wanted),
        None => false,
    }
}

impl RootState {
    /// Tells whether the root has to be created before the store is used.
    pub fn needs_creating(&self) -> (create: bool)
        ensures
            create == (*self == RootState::Missing),
    {
        match self {
            RootState::Missing => true,
            _ => false,
        }
    }
}

impl Store {
    #[verifier::type_invariant]
    spec fn paths_once(&self) -> bool {
        distinct_paths(self@.files)
    }

    /// The root of the store that belongs to the home directory `home`.
    pub fn default_root(home: &str) -> (root: String)
        ensures
            root@ == home@ + seq!['/'] + ".skeleton"@,
    {
        let root = String::from_str(home).concat("/").concat(TEMPLATE_DIR);
        proof {
            reveal_strlit("/");
            assert("/"@ =~= seq!['/']);
        }
        root
    }

    /// Opens the store at `root`, given what stands there: a directory, or
    /// nothing, in which case the directory is to be created, holds a store
    /// without files; anything else holds none.
    pub fn load(root: &str, found: RootState) -> (opened: Result<Store, StoreError>)
        ensures
            match opened {
                Ok(store) => found != RootState::Occupied && store@.root == root@
                    && store@.files == Seq::<(Seq<char>, Seq<char>)>::empty(),
                Err(StoreError::DirectoryUnavailable { path }) => found == RootState::Occupied
                    && path@ == root@,
            },
    {
        match found {
            RootState::Occupied => Err(StoreError::DirectoryUnavailable { path: root.to_owned() }),
            _ => {
                let store = Store { root: root.to_owned(), files: Vec::new() };
                assert(store@.files =~= Seq::<(Seq<char>, Seq<char>)>::empty());
                Ok(store)
            },
        }
    }

    /// The root of the store.
    pub fn path(&self) -> (root: &String)
        ensures
            root@ == self@.root,
    {
        &self.root
    }

    /// The number of files in the store; their paths are distinct.
    pub fn len(&self) -> (n: usize)
        ensures
            n == self@.files.len(),
            distinct_paths(self@.files),
    {
        proof {
            use_type_invariant(self);
        }
        self.files.len()
    }

    /// The path of the file that keeps the template named `name`.
    pub fn file_path(&self, name: &str) -> (path: String)
        ensures
            path@ == file_path(self@.root, name@),
    {
        let path = self.root.clone().concat("/").concat(name).concat(TEMPLATE_EXTENSION);
        proof {
            reveal_strlit("/");
            assert("/"@ =~= seq!['/']);
        }
        path
    }

    /// Where the file at `path` stands.
    fn position(&self, path: &String) -> (found: Option<usize>)
        ensures
            match found {
                Some(at) => has_path(self@.files, path@) && at == path_index(self@.files, path@),
                None => !has_path(self@.files, path@),
            },
    {
        proof {
            use_type_invariant(self);
        }
        let mut i: usize = 0;
        while i < self.files.len()
            invariant
                i <= self.files@.len(),
                self@.files.len() == self.files@.len(),
                distinct_paths(self@.files),
                forall|j: int| 0 <= j < i ==> (#[trigger] self@.files[j]).0 != path@,
            decreases self.files.len() - i,
        {
            if self.files[i].path == *path {
                assert(self@.files[i as int].0 == path@);
                let ghost chosen = path_index(self@.files, path@);
                assert(chosen == i) by {
                    if chosen != i {
                        assert(self@.files[chosen].0 == self@.files[i as int].0);
                    }
                }
                return Some(i);
            }
            i += 1;
        }
        None
    }

    /// Takes note that the file at `path` holds `content`: what the walk of
    /// the directory found, or what was written to it.
    pub fn record(&mut self, path: &str, content: &str)
        ensures
            final(self)@.root == old(self)@.root,
            final(self)@.files == put(old(self)@.files, path@, content@),
            distinct_paths(final(self)@.files),
    {
        proof {
            use_type_invariant(&*self);
            lemma_put(self@.files, path@, content@);
        }
        let key = path.to_owned();
        let found = self.position(&key);
        let mut taken = Store { root: String::new(), files: Vec::new() };
        std::mem::swap(self, &mut taken);
        let root = taken.root;
        let mut files = taken.files;
        let file = StoredFile { path: key, content: content.to_owned() };
        match found {
            Some(at) => {
                files.set(at, file);
            },
            None => {
                files.push(file);
            },
        }
        assert(files_view(files@) =~= put(old(self)@.files, path@, content@));
        *self = Store { root, files };
    }

    /// Keeps `content` under the name `name`: in the file that the name
    /// stands for, over what was there before.
    pub fn write(&mut self, name: &str, content: &str)
        ensures
            final(self)@.root == old(self)@.root,
            final(self)@.files == put(
                old(self)@.files,
                file_path(old(self)@.root, name@),
                content@,
            ),
            distinct_paths(final(self)@.files),
    {
        let path = self.file_path(name);
        self.record(path.as_str(), content);
    }

    /// Deletes the file at `path` and tells whether there was one.
    pub fn remove(&mut self, path: &str) -> (removed: bool)
        ensures
            final(self)@.root == old(self)@.root,
            final(self)@.files == without(old(self)@.files, path@),
            removed == has_path(old(self)@.files, path@),
            distinct_paths(final(self)@.files),
    {
        proof {
            use_type_invariant(&*self);
            lemma_without(self@.files, path@);
        }
        let key = path.to_owned();
        match self.position(&key) {
            None => false,
            Some(at) => {
                let mut taken = Store { root: String::new(), files: Vec::new() };
                std::mem::swap(self, &mut taken);
                let root = taken.root;
                let mut files = taken.files;
                files.remove(at);
                assert(files_view(files@) =~= without(old(self)@.files, path@));
                *self = Store { root, files };
                true
            },
        }
    }

    /// The templates of the store, in the order of its files: all of them
    /// where `groups` is absent or empty, else those that belong to one of
    /// `groups`. One file that holds no template fails the listing with
    /// that file's refusal, whatever the filter.
    pub fn templates(&self, groups: Option<Vec<String>>) -> (listed: Result<
        Vec<Template>,
        TemplateError,
    >)
        ensures
            listing_outcome(listed) == templates_spec(self@.files, filter_view(groups)),
            listed matches Err(error) ==> parse_all(self@.files, self@.files.len() as int)
                matches Err(refusal) && error.path@ == self@.files[refusal.0].0,
    {
        let ghost files = self@.files;
        let ghost filter = filter_view(groups);
        let mut seen: Ghost<Seq<TemplateView>> = Ghost(Seq::empty());
        let mut kept: Vec<Template> = Vec::new();
        let mut i: usize = 0;
        proof {
            reveal(Seq::filter);
            assert(templates_view(kept@) =~= filtered(seen@, filter));
        }
        while i < self.files.len()
            invariant
                i <= self.files@.len(),
                files == self@.files,
                files.len() == self.files@.len(),
                filter == filter_view(groups),
                parse_all(files, i as int) == Ok::<Seq<TemplateView>, (int, ErrorKind)>(seen@),
                templates_view(kept@) == filtered(seen@, filter),
            decreases self.files.len() - i,
        {
            let file = &self.files[i];
            assert(files[i as int] == (file.path@, file.content@));
            match Template::parse(file.path.as_str(), file.content.as_str()) {
                Err(error) => {
                    proof {
                        lemma_parse_all_fails(files, i as int + 1, files.len() as int);
                    }
                    return Err(error);
                },
                Ok(template) => {
                    let ghost before = seen@;
                    let ghost had = templates_view(kept@);
                    let keep = match &groups {
                        Some(wanted) => wanted.len() == 0 || belongs(&template, wanted),
                        None => true,
                    };
                    proof {
                        seen@ = before.push(template@);
                        reveal(Seq::filter);
                        assert(seen@.drop_last() =~= before);
                        assert(filtered(seen@, filter) == if keep {
                            filtered(before, filter).push(template@)
                        } else {
                            filtered(before, filter)
                        });
                    }
                    if keep {
                        kept.push(template);
                        assert(templates_view(kept@) =~= had.push(template@));
                    }
                },
            }
            i += 1;
        }
        Ok(kept)
    }

    /// Tells whether the store holds a template named `name`.
    #[verifier::loop_isolation(false)]
    pub fn contains(&self, name: &str) -> (found: Result<bool, TemplateError>)
        ensures
            match found {
                Ok(held) => contains_spec(self@.files, name@) == Ok::<bool, ErrorKind>(held),
                Err(error) => contains_spec(self@.files, name@) == Err::<bool, ErrorKind>(
                    error.kind,
                ),
            },
            found matches Err(error) ==> parse_all(self@.files, self@.files.len() as int)
                matches Err(refusal) && error.path@ == self@.files[refusal.0].0,
    {
        let templates = match self.templates(None) {
            Ok(templates) => templates,
            Err(error) => {
                return Err(error);
            },
        };
        let wanted = name.to_owned();
        let mut i: usize = 0;
        while i < templates.len()
            invariant
                i <= templates.len(),
                wanted@ == name@,
                forall|j: int|
                    0 <= j < i ==> file_stem((#[trigger] templates_view(templates@)[j]).path)
                        != Some(name@),
            decreases templates.len() - i,
        {
            match templates[i].name() {
                Ok(stem) => {
                    if stem == wanted {
                        assert(file_stem(templates_view(templates@)[i as int].path) == Some(name@));
                        return Ok(true);
                    }
                },
                Err(_) => {},
            }
            i += 1;
        }
        Ok(false)
    }
}

} // verus!
