//! The configuration store: a root directory holding configuration files
//! named `.mozconfig-<name>` and at most one active pointer, a symlink
//! named `.mozconfig` that targets the active configuration's file.
//!
//! The store works on the model of the root directory's contents.  A
//! caller bound to a real filesystem reads the directory into the model,
//! runs the operation, and mirrors the resulting state back onto the disk:
//! `create` writes the file at `path_for_config` with `config_file_text`'s
//! contents, and `activate` removes the entry at `path_to_active_symlink`
//! and links it to `path_for_config`.  The active pointer is resolved by
//! one step: the link's target, taken as an entry name of the root.

use vstd::prelude::*;

use crate::dir::{unchanged_except, Directory, Node};
use crate::names;
use crate::order;
use crate::path::DirPath;

verus! {

/// What a store operation can fail with.
#[derive(Debug)]
pub enum Error {
    /// Activation was asked for a name with no backing file; carries that
    /// name.
    ConfigDoesNotExist(String),
    /// An underlying filesystem fault, such as an active pointer whose
    /// target does not exist; carries a description.
    Io(String),
}

/// A configuration store bound to a root directory.
pub struct Mozconfig {
    /// The root's path.
    pub root: DirPath,
    /// The root's contents.
    pub dir: Directory,
}

impl Mozconfig {
    /// The store's directory model is well-formed.
    pub open spec fn wf(self) -> bool {
        self.dir.wf()
    }

    /// A configuration called `name` is present: the root holds an entry
    /// called `.mozconfig-<name>`, of whatever kind.
    pub open spec fn spec_config_exists(self, name: Seq<char>) -> bool {
        self.dir.has_name(names::config_file_prefix() + name)
    }

    /// `name` appears in the listing: some entry's name encodes it.
    pub open spec fn spec_lists(self, name: Seq<char>) -> bool {
        exists|f: Seq<char>|
            #[trigger] self.dir.has_name(f) && names::spec_config_name(f) == Some(name)
    }

    /// The active pointer is broken: it is a link whose target is missing.
    pub open spec fn spec_active_broken(self) -> bool {
        self.dir.has_name(names::marker_name()) && (self.dir.node_of(names::marker_name()) matches
            Node::Link { target } && !self.dir.has_name(target@))
    }

    /// The name of the active configuration: the configuration name
    /// encoded in the entry the active pointer targets, if the pointer is
    /// a link with an existing target.
    pub open spec fn spec_active_name(self) -> Option<Seq<char>> {
        if self.dir.has_name(names::marker_name()) {
            match self.dir.node_of(names::marker_name()) {
                Node::Link { target } => if self.dir.has_name(target@) {
                    names::spec_config_name(target@)
                } else {
                    None
                },
                _ => None,
            }
        } else {
            None
        }
    }

    /// Binds a store to an explicit root with the given contents.
    pub fn from_path(root: DirPath, dir: Directory) -> (r: Mozconfig)
        requires
            dir.wf(),
        ensures
            r.wf(),
            r.root == root,
            r.dir == dir,
    {
        Mozconfig { root, dir }
    }

    /// Discovers a store by walking up from `start`: the nearest ancestor
    /// directory (the starting directory included) holding a `.mozconfig`
    /// entry becomes the root.  `ancestors[k]` gives the contents of the
    /// ancestor `k` levels above `start`, up to the filesystem root.
    /// Returns `None` when no ancestor holds the entry: absence of a root
    /// is expected, not an error.
    pub fn from_child_path(start: &DirPath, ancestors: &Vec<Directory>) -> (r: Option<Mozconfig>)
        requires
            ancestors@.len() == start@.len() + 1,
            forall|k: int| 0 <= k < ancestors@.len() ==> (#[trigger] ancestors@[k]).wf(),
        ensures
            r is Some <==> exists|k: int|
                0 <= k < ancestors@.len() && (#[trigger] ancestors@[k]).has_name(
                    names::marker_name(),
                ),
            r matches Some(m) ==> {
                let k = start@.len() - m.root@.len();
                &&& m.wf()
                &&& m.root@.len() <= start@.len()
                &&& m.root@ == start@.take(m.root@.len() as int)
                &&& ancestors@[k].has_name(names::marker_name())
                &&& m.dir.entries@ == ancestors@[k].entries@
                &&& forall|j: int|
                    0 <= j < k ==> !(#[trigger] ancestors@[j]).has_name(names::marker_name())
            },
    {
        let depth = start.depth();
        let total = ancestors.len();
        let marker = names::marker_file_name();
        let mut k: usize = 0;
        while k < total
            invariant
                depth == start@.len(),
                total == depth + 1,
                ancestors@.len() == depth + 1,
                forall|j: int| 0 <= j < ancestors@.len() ==> (#[trigger] ancestors@[j]).wf(),
                marker@ == names::marker_name(),
                k <= total,
                forall|j: int|
                    0 <= j < k ==> !(#[trigger] ancestors@[j]).has_name(names::marker_name()),
            decreases total - k,
        {
            if ancestors[k].find(&marker).is_some() {
                proof {
                    assert(ancestors@[k as int].has_name(names::marker_name()));
                }
                let root = start.ancestor(k);
                let dir = ancestors[k].clone();
                proof {
                    assert(root@.len() == depth - k);
                }
                return Some(Mozconfig { root, dir });
            }
            k += 1;
        }
        None
    }

    /// Lists the present configurations' names in strictly ascending
    /// lexicographic order.  An empty root yields an empty listing.
    pub fn list_configs(&self) -> (r: Result<Vec<String>, Error>)
        requires
            self.wf(),
        ensures
            r matches Ok(v) ==> {
                &&& order::strictly_sorted(v.deep_view())
                &&& forall|x: Seq<char>|
                    #![trigger v.deep_view().contains(x)]
                    #![trigger self.spec_lists(x)]
                    v.deep_view().contains(x) <==> self.spec_lists(x)
            },
            r is Ok,
    {
        let mut configs: Vec<String> = Vec::new();
        let n = self.dir.entries.len();
        let mut i: usize = 0;
        while i < n
            invariant
                self.wf(),
                n == self.dir.entries@.len(),
                i <= n,
                order::strictly_sorted(configs.deep_view()),
                forall|x: Seq<char>|
                    configs.deep_view().contains(x) <==> exists|j: int|
                        0 <= j < i && names::spec_config_name(
                            (#[trigger] self.dir.entries@[j]).name@,
                        ) == Some(x),
            decreases n - i,
        {
            let entry_name = &self.dir.entries[i].name;
            match names::config_name_of(entry_name.as_str()) {
                Some(config) => {
                    proof {
                        if configs.deep_view().contains(config@) {
                            let j = choose|j: int|
                                0 <= j < i && names::spec_config_name(
                                    (#[trigger] self.dir.entries@[j]).name@,
                                ) == Some(config@);
                            names::lemma_config_name_injective(
                                self.dir.entries@[j].name@,
                                config@,
                            );
                            names::lemma_config_name_injective(
                                self.dir.entries@[i as int].name@,
                                config@,
                            );
                            assert(self.dir.entries@[j].name@ == self.dir.entries@[i as int].name@);
                        }
                    }
                    let ghost prev = configs.deep_view();
                    order::insert_sorted(&mut configs, config);
                    proof {
                        assert forall|x: Seq<char>| configs.deep_view().contains(x) implies exists|
                            j: int,
                        |
                            0 <= j < i + 1 && names::spec_config_name(
                                (#[trigger] self.dir.entries@[j]).name@,
                            ) == Some(x) by {
                            if prev.contains(x) {
                                let j = choose|j: int|
                                    0 <= j < i && names::spec_config_name(
                                        (#[trigger] self.dir.entries@[j]).name@,
                                    ) == Some(x);
                                assert(0 <= j < i + 1 && names::spec_config_name(
                                    self.dir.entries@[j].name@,
                                ) == Some(x));
                            } else {
                                assert(names::spec_config_name(
                                    self.dir.entries@[i as int].name@,
                                ) == Some(x));
                            }
                        }
                    }
                },
                None => {
                    proof {
                        assert forall|x: Seq<char>| configs.deep_view().contains(x) implies exists|
                            j: int,
                        |
                            0 <= j < i + 1 && names::spec_config_name(
                                (#[trigger] self.dir.entries@[j]).name@,
                            ) == Some(x) by {
                            let j = choose|j: int|
                                0 <= j < i && names::spec_config_name(
                                    (#[trigger] self.dir.entries@[j]).name@,
                                ) == Some(x);
                            assert(0 <= j < i + 1 && names::spec_config_name(
                                self.dir.entries@[j].name@,
                            ) == Some(x));
                        }
                    }
                },
            }
            i += 1;
        }
        proof {
            assert forall|x: Seq<char>| configs.deep_view().contains(x) <==> self.spec_lists(
                x,
            ) by {
                if configs.deep_view().contains(x) {
                    let j = choose|j: int|
                        0 <= j < n && names::spec_config_name(
                            (#[trigger] self.dir.entries@[j]).name@,
                        ) == Some(x);
                    assert(self.dir.has_name(self.dir.entries@[j].name@));
                }
                if self.spec_lists(x) {
                    let f = choose|f: Seq<char>|
                        #[trigger] self.dir.has_name(f) && names::spec_config_name(f) == Some(x);
                    let j = choose|j: int|
                        0 <= j < self.dir.entries@.len() && (#[trigger] self.dir.entries@[j]).name@
                            == f;
                    assert(0 <= j < n && names::spec_config_name(self.dir.entries@[j].name@)
                        == Some(x));
                }
            }
        }
        Ok(configs)
    }

    /// Whether the configuration called `name` is present.
    pub fn config_exists(&self, name: &str) -> (r: bool)
        requires
            self.wf(),
        ensures
            r == self.spec_config_exists(name@),
    {
        let file_name = names::config_file_name(name);
        self.dir.find(&file_name).is_some()
    }

    /// The name of the active configuration, `Ok(None)` when no pointer
    /// is present or it does not denote a configuration file, and an
    /// `Io` error when the pointer is a link with a missing target.
    pub fn current(&self) -> (r: Result<Option<String>, Error>)
        requires
            self.wf(),
        ensures
            self.spec_active_broken() ==> (r matches Err(e) && e is Io),
            !self.spec_active_broken() ==> (r matches Ok(active) && (
            match self.spec_active_name() {
                Some(n) => active matches Some(s) && s@ == n,
                None => active is None,
            })),
    {
        let marker = names::marker_file_name();
        let found = self.dir.find(&marker);
        match found {
            None => Ok(None),
            Some(i) => {
                proof {
                    self.dir.lemma_index_of(marker@);
                    assert(self.dir.index_of(marker@) == i as int);
                }
                match &self.dir.entries[i].node {
                    Node::Link { target } => {
                        match self.dir.find(target) {
                            Some(_) => Ok(names::config_name_of(target.as_str())),
                            None => Err(
                                Error::Io(
                                    String::from_str(
                                        "the active configuration link points to a missing file",
                                    ),
                                ),
                            ),
                        }
                    },
                    _ => Ok(None),
                }
            },
        }
    }

    /// Creates (or overwrites) the configuration called `name`: the root
    /// gains a file `.mozconfig-<name>` holding a build-directory
    /// directive that embeds the name.  Every other entry is untouched.
    pub fn create(&mut self, name: &str) -> (r: Result<(), Error>)
        requires
            old(self).wf(),
        ensures
            r is Ok,
            final(self).wf(),
            final(self).root == old(self).root,
            final(self).dir.has_name(names::config_file_prefix() + name@),
            final(self).dir.node_of(names::config_file_prefix() + name@) matches Node::File { text }
                && text@ == names::config_text_prefix() + name@,
            unchanged_except(old(self).dir, final(self).dir, names::config_file_prefix() + name@),
    {
        let file_name = names::config_file_name(name);
        let text = names::config_file_text(name);
        self.dir.upsert(file_name, Node::File { text });
        Ok(())
    }

    /// Activates the configuration called `name`: replaces whatever stood
    /// at the active pointer with a link to `.mozconfig-<name>`.  Fails
    /// with `ConfigDoesNotExist` — and changes nothing — when no such
    /// configuration is present.
    pub fn activate(&mut self, name: &str) -> (r: Result<(), Error>)
        requires
            old(self).wf(),
        ensures
            final(self).wf(),
            final(self).root == old(self).root,
            !old(self).spec_config_exists(name@) ==> (r matches Err(e) && (e matches
                Error::ConfigDoesNotExist(missing) && missing@ == name@) && *final(self) == *old(
                self,
            )),
            old(self).spec_config_exists(name@) ==> {
                &&& r is Ok
                &&& final(self).dir.has_name(names::marker_name())
                &&& final(self).dir.node_of(names::marker_name()) matches Node::Link { target }
                    && target@ == names::config_file_prefix() + name@
                &&& unchanged_except(old(self).dir, final(self).dir, names::marker_name())
            },
    {
        if !self.config_exists(name) {
            return Err(Error::ConfigDoesNotExist(String::from_str(name)));
        }
        let marker = names::marker_file_name();
        let target = names::config_file_name(name);
        self.dir.upsert(marker, Node::Link { target });
        Ok(())
    }

    /// The path of the configuration file for `name` under the root.
    pub fn path_for_config(&self, name: &str) -> (r: DirPath)
        ensures
            r@ == self.root@.push(names::config_file_prefix() + name@),
    {
        self.root.entry_path(names::config_file_name(name))
    }

    /// The path of the active pointer under the root.
    pub fn path_to_active_symlink(&self) -> (r: DirPath)
        ensures
            r@ == self.root@.push(names::marker_name()),
    {
        self.root.entry_path(names::marker_file_name())
    }

    /// The text of the configuration file for `name`, when a regular file
    /// backs it.
    pub fn config_text(&self, name: &str) -> (r: Option<String>)
        requires
            self.wf(),
        ensures
            r matches Some(text) ==> self.spec_config_exists(name@) && (self.dir.node_of(
                names::config_file_prefix() + name@,
            ) matches Node::File { text: t } && t@ == text@),
            r is None ==> !(self.spec_config_exists(name@) && self.dir.node_of(
                names::config_file_prefix() + name@,
            ) is File),
    {
        let file_name = names::config_file_name(name);
        match self.dir.find(&file_name) {
            None => None,
            Some(i) => {
                proof {
                    self.dir.lemma_index_of(file_name@);
                    assert(self.dir.index_of(file_name@) == i as int);
                }
                match &self.dir.entries[i].node {
                    Node::File { text } => Some(text.clone()),
                    _ => None,
                }
            },
        }
    }
}

/// A configuration that was created is seen again: once the root holds
/// the file `.mozconfig-<name>` for a usable name — as it does after
/// `create(name)` — `config_exists(name)` reports it present and
/// `list_configs` includes `name`.
pub proof fn lemma_created_config_is_seen(m: Mozconfig, name: Seq<char>)
    requires
        m.wf(),
        names::valid_name(name),
        m.dir.has_name(names::config_file_prefix() + name),
    ensures
        m.spec_config_exists(name),
        m.spec_lists(name),
{
    names::lemma_config_name_round_trip(name);
    assert(m.dir.has_name(names::config_file_prefix() + name) && names::spec_config_name(
        names::config_file_prefix() + name,
    ) == Some(name));
}

/// An activation is read back: once the active pointer links to the file
/// of a usable name and that file is present — as they are after a
/// successful `activate(name)` — the pointer is not broken and `current`
/// resolves it to exactly that name.
pub proof fn lemma_activation_is_read_back(m: Mozconfig, name: Seq<char>)
    requires
        m.wf(),
        names::valid_name(name),
        m.dir.has_name(names::marker_name()),
        m.dir.node_of(names::marker_name()) matches Node::Link { target } && target@
            == names::config_file_prefix() + name,
        m.spec_config_exists(name),
    ensures
        !m.spec_active_broken(),
        m.spec_active_name() == Some(name),
{
    names::lemma_config_name_round_trip(name);
}

} // verus!
