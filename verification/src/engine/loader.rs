//! Loads units from various sources.
//!
//! A unit is named by a path of components separated by `/`. The loader looks
//! for it under each of its search paths in turn, component by component: a
//! component may lead into a directory, into a unit file, which holds several
//! scripts by name, or to a script. What the loader has learned of the file
//! system it keeps; what it has yet to learn it asks for, one path at a time.

pub mod unitfile;

use crate::error::Error;
use crate::models::seq_view;
use crate::text::{has_tag, scan, span, tag_at, CharClass, Text};
use unitfile::{definitions, UnitFile};
use vstd::hash_map::StringHashMap;
use vstd::prelude::*;
use vstd::string::StringExecFns;

verus! {

/// What the file system shows at a path.
pub enum Probe {
    /// Nothing.
    Missing,
    /// A directory.
    Directory,
    /// A file, with what it holds.
    File(String),
}

/// What a path leads to. Loading is modeled as a traversal of a tree of
/// nodes: a directory contains scripts and unit files, a unit file contains
/// scripts, and a script ends the path.
pub enum Node {
    /// Nothing is there.
    Missing,
    Directory,
    UnitFile(UnitFile),
    Script(String),
}

/// What a [`Node`] holds, as mathematics.
pub ghost enum NodeView {
    Missing,
    Directory,
    UnitFile(Map<Seq<char>, Seq<char>>),
    Script(Seq<char>),
}

impl View for Node {
    type V = NodeView;

    open spec fn view(&self) -> NodeView {
        match self {
            Node::Missing => NodeView::Missing,
            Node::Directory => NodeView::Directory,
            Node::UnitFile(file) => NodeView::UnitFile(file.units()),
            Node::Script(script) => NodeView::Script(script@),
        }
    }
}

/// Whether `s` ends with `suffix`.
pub open spec fn ends_with(s: Seq<char>, suffix: Seq<char>) -> bool {
    has_tag(s, s.len() - suffix.len(), suffix)
}

/// The node that a probe of `path` shows, unless it shows a file that is
/// neither a unit file, ending in `.sysu`, nor a script, ending in `.sh`.
pub open spec fn node_of(path: Seq<char>, probe: Probe) -> Option<NodeView> {
    match probe {
        Probe::Missing => Some(NodeView::Missing),
        Probe::Directory => Some(NodeView::Directory),
        Probe::File(content) => if ends_with(path, ".sysu"@) {
            Some(NodeView::UnitFile(definitions(content@)))
        } else if ends_with(path, ".sh"@) {
            Some(NodeView::Script(content@))
        } else {
            None
        },
    }
}

/// The components of the name `s` from position `i` on: the pieces between
/// its `/`s that are not empty.
pub open spec fn components(s: Seq<char>, i: int) -> Seq<Seq<char>>
    decreases s.len() - i,
{
    if 0 <= i < s.len() {
        let end = span(s, i, CharClass::Except('/'));
        if i < end <= s.len() {
            seq![s.subrange(i, end)] + components(s, end)
        } else if end == i {
            components(s, i + 1)
        } else {
            Seq::empty()
        }
    } else {
        Seq::empty()
    }
}

/// The path of the entry `name` of the directory `dir`.
pub open spec fn join(dir: Seq<char>, name: Seq<char>) -> Seq<char> {
    dir + "/"@ + name
}

/// What the loader knows at some point of a traversal.
pub ghost enum Place {
    /// It stands in the directory of this path.
    Directory(Seq<char>),
    /// It stands in the unit file of this path, which holds these scripts.
    UnitFile(Seq<char>, Map<Seq<char>, Seq<char>>),
    /// It has reached this script.
    Script(Seq<char>),
}

/// What a search comes to.
pub ghost enum Search {
    /// The script of the unit.
    Found(Seq<char>),
    /// The file system is to be asked what is at this path.
    Probe(Seq<char>),
    /// Nothing of that name is under the search path.
    Nowhere,
    /// The name leads to a directory or a unit file, or through a script.
    NotAScript,
    /// The unit file of this path holds no unit of this name.
    NotInUnitFile(Seq<char>, Seq<char>),
}

/// Where following the components of `name` from the `k`th on leads, from
/// `place`, with what `known` tells of the file system.
pub open spec fn follow(
    known: Map<Seq<char>, NodeView>,
    place: Place,
    name: Seq<Seq<char>>,
    k: int,
) -> Search
    decreases name.len() - k,
{
    if 0 <= k < name.len() {
        match place {
            Place::Directory(dir) => {
                let path = join(dir, name[k]);
                if !known.contains_key(path) {
                    Search::Probe(path)
                } else {
                    match known[path] {
                        NodeView::Missing => Search::Nowhere,
                        NodeView::Directory => follow(known, Place::Directory(path), name, k + 1),
                        NodeView::UnitFile(units) => follow(
                            known,
                            Place::UnitFile(path, units),
                            name,
                            k + 1,
                        ),
                        NodeView::Script(script) => follow(
                            known,
                            Place::Script(script),
                            name,
                            k + 1,
                        ),
                    }
                }
            },
            Place::UnitFile(path, units) => if units.contains_key(name[k]) {
                follow(known, Place::Script(units[name[k]]), name, k + 1)
            } else {
                Search::NotInUnitFile(name[k], path)
            },
            Place::Script(_) => Search::NotAScript,
        }
    } else {
        match place {
            Place::Script(script) => Search::Found(script),
            _ => Search::NotAScript,
        }
    }
}

/// What searching for `name` under the search paths from the `i`th on comes
/// to: what the first of them comes to under which the name leads anywhere.
pub open spec fn search_from(
    known: Map<Seq<char>, NodeView>,
    paths: Seq<Seq<char>>,
    name: Seq<Seq<char>>,
    i: int,
) -> Search
    decreases paths.len() - i,
{
    if 0 <= i < paths.len() {
        match follow(known, Place::Directory(paths[i]), name, 0) {
            Search::Nowhere => search_from(known, paths, name, i + 1),
            found => found,
        }
    } else {
        Search::Nowhere
    }
}

/// What a [`Loader`] answers when asked for a script.
pub enum Load {
    /// The script.
    Script(String),
    /// The loader needs to know what is at this path. Its probe is to be
    /// handed to [`Loader::record`], and the script asked for again.
    Probe(String),
    /// There is no such script.
    Failed(Error),
}

/// Whether `load` says what `search` came to, for the unit `loc` and the
/// search paths `paths`.
pub open spec fn answers(load: Load, search: Search, loc: Seq<char>, paths: Seq<Seq<char>>) -> bool {
    match search {
        Search::Found(script) => load matches Load::Script(s) && s@ == script,
        Search::Probe(path) => load matches Load::Probe(p) && p@ == path,
        Search::Nowhere => {
            &&& load matches Load::Failed(Error::NotFound { name, search_paths })
            &&& name@ == loc
            &&& seq_view(search_paths@) == paths
        },
        Search::NotAScript => load matches Load::Failed(Error::NotAScript(name)) && name@ == loc,
        Search::NotInUnitFile(unit, file) => {
            &&& load matches Load::Failed(Error::NotInUnitFile { name, file: f })
            &&& name@ == unit
            &&& f@ == file
        },
    }
}

/// Finds and loads scripts from the set of search paths it was made with.
pub struct Loader {
    search_paths: Vec<String>,
    nodes: StringHashMap<Node>,
}

/// Where the loader stands during a traversal.
enum Cursor<'a> {
    Directory(String),
    UnitFile(&'a UnitFile),
    Script(String),
}

impl<'a> Cursor<'a> {
    spec fn place(self) -> Place {
        match self {
            Cursor::Directory(path) => Place::Directory(path@),
            Cursor::UnitFile(file) => Place::UnitFile(file.path(), file.units()),
            Cursor::Script(script) => Place::Script(script@),
        }
    }
}

/// One step of a traversal.
enum Step<'a> {
    On(Cursor<'a>),
    Stop(Load),
    Nowhere,
}

impl Loader {
    /// The search paths, in the order in which they are searched.
    pub closed spec fn search_paths(&self) -> Seq<Seq<char>> {
        seq_view(self.search_paths@)
    }

    /// What the loader knows of the file system: the node at each path that
    /// it has been told of.
    pub closed spec fn known(&self) -> Map<Seq<char>, NodeView> {
        self.nodes@.map_values(|node: Node| node@)
    }

    #[verifier::type_invariant]
    spec fn files_know_their_path(self) -> bool {
        forall|path: Seq<char>| #[trigger]
            self.nodes@.contains_key(path) ==> (self.nodes@[path] matches Node::UnitFile(file)
                ==> file.path() == path)
    }

    /// A loader for these search paths, which knows nothing of the file
    /// system yet.
    pub fn from_search_paths(search_paths: Vec<String>) -> (loader: Self)
        ensures
            loader.search_paths() == seq_view(search_paths@),
            loader.known() == Map::<Seq<char>, NodeView>::empty(),
    {
        let loader = Loader { search_paths, nodes: StringHashMap::new() };
        assert(loader.known() =~= Map::<Seq<char>, NodeView>::empty());
        loader
    }

    /// What searching for the unit `loc` comes to, with what the loader
    /// knows.
    pub open spec fn search(&self, loc: Seq<char>) -> Search {
        search_from(self.known(), self.search_paths(), components(loc, 0), 0)
    }

    /// Takes in what the file system shows at `path`: a directory, a unit
    /// file, which is read, a script, or nothing. A file of another kind is
    /// an error, and nothing is learned of it. What is known of a path
    /// already is replaced.
    pub fn record(&mut self, path: String, probe: Probe) -> (r: Result<(), Error>)
        ensures
            match node_of(path@, probe) {
                Some(node) => {
                    &&& r is Ok
                    &&& final(self).known() == old(self).known().insert(path@, node)
                },
                None => {
                    &&& r matches Err(Error::InvalidExtension(p))
                    &&& p@ == path@
                    &&& final(self).known() == old(self).known()
                },
            },
            final(self).search_paths() == old(self).search_paths(),
    {
        proof {
            use_type_invariant(&*self);
            reveal_strlit(".sysu");
            reveal_strlit(".sh");
            assert(".sysu"@.len() == 5);
            assert(".sh"@.len() == 3);
        }
        let node = match probe {
            Probe::Missing => Node::Missing,
            Probe::Directory => Node::Directory,
            Probe::File(content) => {
                let t = Text::new(path.as_str());
                let n = t.len();
                if n >= 5 && tag_at(&t, n - 5, ".sysu") {
                    Node::UnitFile(UnitFile::load(path.clone(), content.as_str()))
                } else if n >= 3 && tag_at(&t, n - 3, ".sh") {
                    Node::Script(content)
                } else {
                    return Err(Error::InvalidExtension(path));
                }
            },
        };
        let ghost before = self.nodes@;
        let mut nodes: StringHashMap<Node> = StringHashMap::new();
        std::mem::swap(&mut nodes, &mut self.nodes);
        nodes.insert(path, node);
        proof {
            assert(nodes@.map_values(|node: Node| node@) =~= before.map_values(
                |node: Node| node@,
            ).insert(path@, node@));
        }
        self.nodes = nodes;
        Ok(())
    }

    /// One step of a traversal: from `cursor` by `component`.
    fn step<'a>(&'a self, cursor: Cursor<'a>, component: &str, loc: &str) -> (r: Step<'a>)
        ensures
            forall|name: Seq<Seq<char>>, k: int|
                0 <= k < name.len() && name[k] == component@ ==> match r {
                    Step::On(next) => #[trigger] follow(self.known(), cursor.place(), name, k)
                        == follow(self.known(), next.place(), name, k + 1),
                    Step::Stop(load) => follow(self.known(), cursor.place(), name, k)
                        != Search::Nowhere && answers(
                        load,
                        follow(self.known(), cursor.place(), name, k),
                        loc@,
                        self.search_paths(),
                    ),
                    Step::Nowhere => follow(self.known(), cursor.place(), name, k)
                        == Search::Nowhere,
                },
    {
        proof {
            use_type_invariant(self);
        }
        match cursor {
            Cursor::Directory(dir) => {
                let mut path = dir;
                path.append("/");
                path.append(component);
                match self.nodes.get(path.as_str()) {
                    None => Step::Stop(Load::Probe(path)),
                    Some(node) => match node {
                        Node::Missing => Step::Nowhere,
                        Node::Directory => Step::On(Cursor::Directory(path)),
                        Node::UnitFile(file) => Step::On(Cursor::UnitFile(file)),
                        Node::Script(script) => Step::On(Cursor::Script(script.clone())),
                    },
                }
            },
            Cursor::UnitFile(file) => match file.get(component) {
                Some(script) => Step::On(Cursor::Script(script)),
                None => Step::Stop(
                    Load::Failed(
                        Error::NotInUnitFile {
                            name: String::from_str(component),
                            file: file.display_path(),
                        },
                    ),
                ),
            },
            Cursor::Script(_) => Step::Stop(Load::Failed(Error::NotAScript(String::from_str(loc)))),
        }
    }

    /// The script of the unit `loc`, if what the loader knows leads to it;
    /// the path that it needs to know of, if not; or the failure to find a
    /// script of that name. The same name may be asked for any number of
    /// times.
    #[verifier::loop_isolation(false)]
    pub fn load(&self, loc: &str) -> (r: Load)
        ensures
            answers(r, self.search(loc@), loc@, self.search_paths()),
    {
        let name = split(loc);
        let ghost wanted = components(loc@, 0);
        let mut i: usize = 0;
        while i < self.search_paths.len()
            invariant
                i <= self.search_paths@.len(),
                self.search(loc@) == search_from(
                    self.known(),
                    self.search_paths(),
                    wanted,
                    i as int,
                ),
            decreases self.search_paths@.len() - i,
        {
            assert(self.search_paths()[i as int] == self.search_paths@[i as int]@);
            let mut cursor = Cursor::Directory(self.search_paths[i].clone());
            let ghost whole = follow(self.known(), cursor.place(), wanted, 0);
            let mut k: usize = 0;
            let mut nowhere = false;
            while k < name.len() && !nowhere
                invariant
                    k <= name@.len(),
                    seq_view(name@) == wanted,
                    !nowhere ==> whole == follow(self.known(), cursor.place(), wanted, k as int),
                    nowhere ==> whole == Search::Nowhere,
                decreases name@.len() - k + (if nowhere { 0int } else { 1int }),
            {
                assert(wanted[k as int] == name@[k as int]@);
                match self.step(cursor, name[k].as_str(), loc) {
                    Step::On(next) => {
                        cursor = next;
                        k = k + 1;
                    },
                    Step::Stop(load) => {
                        return load;
                    },
                    Step::Nowhere => {
                        cursor = Cursor::Script(String::new());
                        nowhere = true;
                    },
                }
            }
            if !nowhere {
                match cursor {
                    Cursor::Script(script) => {
                        return Load::Script(script);
                    },
                    _ => {
                        return Load::Failed(Error::NotAScript(String::from_str(loc)));
                    },
                }
            }
            i = i + 1;
        }
        Load::Failed(
            Error::NotFound { name: String::from_str(loc), search_paths: self.paths() },
        )
    }

    /// A copy of the search paths.
    fn paths(&self) -> (r: Vec<String>)
        ensures
            seq_view(r@) == self.search_paths(),
    {
        let mut r: Vec<String> = Vec::new();
        let mut i: usize = 0;
        while i < self.search_paths.len()
            invariant
                i <= self.search_paths@.len(),
                r@.len() == i,
                forall|j: int| 0 <= j < i ==> (#[trigger] r@[j])@ == self.search_paths@[j]@,
            decreases self.search_paths@.len() - i,
        {
            r.push(self.search_paths[i].clone());
            i = i + 1;
        }
        assert(seq_view(r@) =~= self.search_paths());
        r
    }
}

/// Splits the name of a unit into its components.
pub fn split(loc: &str) -> (name: Vec<String>)
    ensures
        seq_view(name@) == components(loc@, 0),
{
    let t = Text::new(loc);
    let n = t.len();
    let mut name: Vec<String> = Vec::new();
    let mut i: usize = 0;
    assert(seq_view(name@) =~= Seq::<Seq<char>>::empty());
    while i < n
        invariant
            i <= n,
            n == t@.len(),
            components(t@, 0) == seq_view(name@) + components(t@, i as int),
        decreases n - i,
    {
        let end = scan(&t, i, CharClass::Except('/'));
        let ghost before = seq_view(name@);
        if end > i {
            name.push(t.slice(i, end));
            assert(seq_view(name@) =~= before.push(t@.subrange(i as int, end as int)));
            assert(before + (seq![t@.subrange(i as int, end as int)] + components(
                t@,
                end as int,
            )) =~= seq_view(name@) + components(t@, end as int));
            i = end;
        } else {
            i = i + 1;
        }
    }
    assert(seq_view(name@) + components(t@, n as int) =~= seq_view(name@));
    name
}

} // verus!
