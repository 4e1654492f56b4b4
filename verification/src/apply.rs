use vstd::prelude::*;

verus! {

/// One entry of a downloaded archive, as the archive reader hands it over:
/// the safe relative path its stored name resolved to (`None` when the name
/// escapes the target directory, so the entry must be ignored rather than
/// written), whether the entry denotes a directory, and the entry's bytes
/// (empty for a directory).
pub struct ArchiveEntry {
    pub name: Option<String>,
    pub is_dir: bool,
    pub data: Vec<u8>,
}

/// The mathematical shape of an archive entry.
pub struct EntryModel {
    pub name: Option<Seq<char>>,
    pub is_dir: bool,
    pub data: Seq<u8>,
}

impl View for ArchiveEntry {
    type V = EntryModel;

    open spec fn view(&self) -> EntryModel {
        EntryModel { name: self.name.deep_view(), is_dir: self.is_dir, data: self.data@ }
    }
}

impl DeepView for ArchiveEntry {
    type V = EntryModel;

    open spec fn deep_view(&self) -> EntryModel {
        self.view()
    }
}

/// What a path of the target tree holds once applied.
#[derive(Debug, PartialEq)]
pub enum StoreNode {
    Dir,
    File(Vec<u8>),
}

/// The mathematical shape of a tree node.
pub enum NodeModel {
    Dir,
    File(Seq<u8>),
}

impl View for StoreNode {
    type V = NodeModel;

    open spec fn view(&self) -> NodeModel {
        match self {
            StoreNode::Dir => NodeModel::Dir,
            StoreNode::File(data) => NodeModel::File(data@),
        }
    }
}

/// What the extractor does with one archive entry.
#[derive(Clone, Copy, Debug, PartialEq, Eq, Structural)]
pub enum EntryAction {
    /// The stored name cannot be resolved to a safe relative path; the entry
    /// is ignored, the run goes on.
    SkipUnsafe,
    /// The path is excluded and already present on the target; the entry is
    /// left untouched.
    SkipExcluded,
    /// Create the directory (and any missing ancestors).
    MakeDir,
    /// Create ancestors as needed, then write the entry's bytes over
    /// whatever the destination held.
    WriteFile,
}

/// The decision for one archive entry.  The key subtlety of the exclusion
/// policy lives here: an exclusion protects a path only when the path is
/// already present on the target, so a first-time install still creates it.
pub open spec fn spec_entry_action(
    name: Option<Seq<char>>,
    is_dir: bool,
    exclude: Seq<Seq<char>>,
    exists_on_target: bool,
) -> EntryAction {
    match name {
        None => EntryAction::SkipUnsafe,
        Some(p) => if exclude.contains(p) && exists_on_target {
            EntryAction::SkipExcluded
        } else if is_dir {
            EntryAction::MakeDir
        } else {
            EntryAction::WriteFile
        },
    }
}

/// Whether `name` is one of the caller-supplied exclusion paths.
pub fn is_excluded(name: &String, exclude: &Vec<String>) -> (b: bool)
    ensures
        b == exclude.deep_view().contains(name@),
{
    let n = exclude.len();
    for i in 0..n
        invariant
            n == exclude.len(),
            forall|j: int| 0 <= j < i ==> exclude@[j]@ != name@,
    {
        if exclude[i] == *name {
            proof {
                assert(exclude.deep_view()[i as int] == name@);
            }
            return true;
        }
    }
    proof {
        assert forall|k: int| 0 <= k < exclude.deep_view().len() implies exclude.deep_view()[k]
            != name@ by {
            assert(exclude.deep_view()[k] == exclude@[k]@);
        }
    }
    false
}

/// The pure skip predicate of the exclusion policy: skip exactly when the
/// path is excluded and its destination already exists on the target.
pub fn should_skip(name: &String, exclude: &Vec<String>, exists_on_target: bool) -> (b: bool)
    ensures
        b == (exclude.deep_view().contains(name@) && exists_on_target),
{
    is_excluded(name, exclude) && exists_on_target
}

/// The decision for one archive entry, given whether its destination is
/// already present on the target tree.
pub fn plan_entry(
    name: &Option<String>,
    is_dir: bool,
    exclude: &Vec<String>,
    exists_on_target: bool,
) -> (a: EntryAction)
    ensures
        a == spec_entry_action(name.deep_view(), is_dir, exclude.deep_view(), exists_on_target),
{
    match name {
        None => EntryAction::SkipUnsafe,
        Some(p) => {
            if should_skip(p, exclude, exists_on_target) {
                EntryAction::SkipExcluded
            } else if is_dir {
                EntryAction::MakeDir
            } else {
                EntryAction::WriteFile
            }
        },
    }
}

/// The effect of one archive entry on the modeled target tree.  The model
/// tracks entry paths; ancestor directories arise on the real filesystem as
/// a side effect of creating files and are not part of the store model.
pub open spec fn spec_apply_entry(
    t: Map<Seq<char>, NodeModel>,
    e: EntryModel,
    exclude: Seq<Seq<char>>,
) -> Map<Seq<char>, NodeModel> {
    match e.name {
        None => t,
        Some(p) => if exclude.contains(p) && t.dom().contains(p) {
            t
        } else if e.is_dir {
            t.insert(p, NodeModel::Dir)
        } else {
            t.insert(p, NodeModel::File(e.data))
        },
    }
}

/// The effect of applying a whole archive, entry by entry in archive order.
pub open spec fn spec_apply(
    t: Map<Seq<char>, NodeModel>,
    entries: Seq<EntryModel>,
    exclude: Seq<Seq<char>>,
) -> Map<Seq<char>, NodeModel>
    decreases entries.len(),
{
    if entries.len() == 0 {
        t
    } else {
        spec_apply(spec_apply_entry(t, entries[0], exclude), entries.drop_first(), exclude)
    }
}

/// An in-memory stand-in for the target tree, for exercising the
/// application pipeline without touching a filesystem: an association list
/// whose later pairs shadow earlier ones.
pub struct Store {
    entries: Vec<(String, StoreNode)>,
}

/// The map an association list denotes: later pairs win.
spec fn spec_assoc(s: Seq<(String, StoreNode)>) -> Map<Seq<char>, NodeModel>
    decreases s.len(),
{
    if s.len() == 0 {
        Map::empty()
    } else {
        spec_assoc(s.drop_last()).insert(s.last().0@, s.last().1@)
    }
}

impl View for Store {
    type V = Map<Seq<char>, NodeModel>;

    closed spec fn view(&self) -> Map<Seq<char>, NodeModel> {
        spec_assoc(self.entries@)
    }
}

proof fn lemma_assoc_absent_suffix(s: Seq<(String, StoreNode)>, k: Seq<char>, i: int)
    requires
        0 <= i <= s.len(),
        forall|j: int| i <= j < s.len() ==> s[j].0@ != k,
    ensures
        spec_assoc(s).dom().contains(k) == spec_assoc(s.take(i)).dom().contains(k),
        spec_assoc(s).dom().contains(k) ==> spec_assoc(s)[k] == spec_assoc(s.take(i))[k],
    decreases s.len(),
{
    if i == s.len() {
        assert(s.take(i) =~= s);
    } else {
        lemma_assoc_absent_suffix(s.drop_last(), k, i);
        assert(s.drop_last().take(i) =~= s.take(i));
    }
}

impl Store {
    /// An empty tree.
    pub fn new() -> (s: Store)
        ensures
            s@ == Map::<Seq<char>, NodeModel>::empty(),
    {
        Store { entries: Vec::new() }
    }

    /// What the tree holds at `name`, if anything.
    pub fn get(&self, name: &String) -> (r: Option<&StoreNode>)
        ensures
            match r {
                Some(node) => self@.dom().contains(name@) && node@ == self@[name@],
                None => !self@.dom().contains(name@),
            },
    {
        let n = self.entries.len();
        let mut i = n;
        while i > 0
            invariant
                i <= n,
                n == self.entries@.len(),
                forall|j: int| i <= j < n ==> self.entries@[j].0@ != name@,
            decreases i,
        {
            i = i - 1;
            let pair = &self.entries[i];
            if pair.0 == *name {
                proof {
                    let s = self.entries@;
                    lemma_assoc_absent_suffix(s, name@, i + 1);
                    assert(s.take(i + 1).drop_last() =~= s.take(i as int));
                    assert(s.take(i + 1).last() == s[i as int]);
                    assert(spec_assoc(s.take(i + 1)) == spec_assoc(s.take(i as int)).insert(
                        s[i as int].0@,
                        s[i as int].1@,
                    ));
                }
                return Some(&pair.1);
            }
        }
        proof {
            let s = self.entries@;
            lemma_assoc_absent_suffix(s, name@, 0);
            assert(s.take(0) =~= Seq::<(String, StoreNode)>::empty());
            assert(spec_assoc(s.take(0)) == Map::<Seq<char>, NodeModel>::empty());
        }
        None
    }

    /// Whether the tree holds anything at `name`.
    pub fn contains(&self, name: &String) -> (b: bool)
        ensures
            b == self@.dom().contains(name@),
    {
        match self.get(name) {
            Some(_) => true,
            None => false,
        }
    }

    /// Sets what the tree holds at `name`.
    pub fn set(&mut self, name: &String, node: StoreNode)
        ensures
            final(self)@ == old(self)@.insert(name@, node@),
    {
        let ghost prev = self.entries@;
        let ghost node_model = node@;
        self.entries.push((name.clone(), node));
        proof {
            assert(self.entries@.drop_last() =~= prev);
            assert(self.entries@.last().0@ == name@);
            assert(self.entries@.last().1@ == node_model);
        }
    }
}

proof fn lemma_apply_snoc(
    t: Map<Seq<char>, NodeModel>,
    entries: Seq<EntryModel>,
    e: EntryModel,
    exclude: Seq<Seq<char>>,
)
    ensures
        spec_apply(t, entries.push(e), exclude) == spec_apply_entry(
            spec_apply(t, entries, exclude),
            e,
            exclude,
        ),
    decreases entries.len(),
{
    if entries.len() == 0 {
        assert(entries.push(e)[0] == e);
        assert(entries.push(e).drop_first() =~= Seq::<EntryModel>::empty());
        assert(spec_apply(t, entries.push(e), exclude) == spec_apply(
            spec_apply_entry(t, e, exclude),
            Seq::<EntryModel>::empty(),
            exclude,
        ));
        assert(spec_apply(t, entries, exclude) == t);
    } else {
        assert(entries.push(e)[0] == entries[0]);
        assert(entries.push(e).drop_first() =~= entries.drop_first().push(e));
        lemma_apply_snoc(spec_apply_entry(t, entries[0], exclude), entries.drop_first(), e, exclude);
        assert(spec_apply(t, entries.push(e), exclude) == spec_apply(
            spec_apply_entry(t, entries[0], exclude),
            entries.drop_first().push(e),
            exclude,
        ));
        assert(spec_apply(t, entries, exclude) == spec_apply(
            spec_apply_entry(t, entries[0], exclude),
            entries.drop_first(),
            exclude,
        ));
    }
}

/// An excluded path that is already present keeps its content through a
/// whole application, whatever the archive holds.
pub proof fn lemma_excluded_preserved(
    t: Map<Seq<char>, NodeModel>,
    entries: Seq<EntryModel>,
    exclude: Seq<Seq<char>>,
    p: Seq<char>,
)
    requires
        exclude.contains(p),
        t.dom().contains(p),
    ensures
        spec_apply(t, entries, exclude).dom().contains(p),
        spec_apply(t, entries, exclude)[p] == t[p],
    decreases entries.len(),
{
    if entries.len() > 0 {
        let t1 = spec_apply_entry(t, entries[0], exclude);
        assert(t1.dom().contains(p) && t1[p] == t[p]);
        lemma_excluded_preserved(t1, entries.drop_first(), exclude, p);
    }
}

/// An excluded path that is not yet present is still created from the
/// archive: the first entry carrying it decides what the path holds after a
/// whole application.
pub proof fn lemma_excluded_created(
    t: Map<Seq<char>, NodeModel>,
    entries: Seq<EntryModel>,
    exclude: Seq<Seq<char>>,
    p: Seq<char>,
    i0: int,
)
    requires
        exclude.contains(p),
        !t.dom().contains(p),
        0 <= i0 < entries.len(),
        entries[i0].name == Some(p),
        forall|j: int| 0 <= j < i0 ==> entries[j].name != Some(p),
    ensures
        spec_apply(t, entries, exclude).dom().contains(p),
        spec_apply(t, entries, exclude)[p] == (if entries[i0].is_dir {
            NodeModel::Dir
        } else {
            NodeModel::File(entries[i0].data)
        }),
    decreases entries.len(),
{
    let t1 = spec_apply_entry(t, entries[0], exclude);
    if i0 == 0 {
        assert(t1.dom().contains(p));
        lemma_excluded_preserved(t1, entries.drop_first(), exclude, p);
    } else {
        assert(!t1.dom().contains(p));
        assert(entries.drop_first()[i0 - 1] == entries[i0]);
        assert forall|j: int| 0 <= j < i0 - 1 implies entries.drop_first()[j].name != Some(
            p,
        ) by {
            assert(entries.drop_first()[j] == entries[j + 1]);
        }
        lemma_excluded_created(t1, entries.drop_first(), exclude, p, i0 - 1);
    }
}

proof fn lemma_apply_dom_preserved(
    t: Map<Seq<char>, NodeModel>,
    entries: Seq<EntryModel>,
    exclude: Seq<Seq<char>>,
    p: Seq<char>,
)
    requires
        t.dom().contains(p),
    ensures
        spec_apply(t, entries, exclude).dom().contains(p),
    decreases entries.len(),
{
    if entries.len() > 0 {
        lemma_apply_dom_preserved(
            spec_apply_entry(t, entries[0], exclude),
            entries.drop_first(),
            exclude,
            p,
        );
    }
}

/// The re-application argument: running the archive over a tree `a` that
/// already holds the final contents of running it over `b` changes nothing.
/// `a` must cover `b`, have exactly the final domain, hold the final value
/// at every excluded path, and at every other path hold either the final
/// value or the value `b` holds.
proof fn lemma_apply_rejoin(
    a: Map<Seq<char>, NodeModel>,
    b: Map<Seq<char>, NodeModel>,
    entries: Seq<EntryModel>,
    exclude: Seq<Seq<char>>,
)
    requires
        forall|p: Seq<char>| #[trigger] b.dom().contains(p) ==> a.dom().contains(p),
        a.dom() == spec_apply(b, entries, exclude).dom(),
        forall|p: Seq<char>|
            #[trigger] a.dom().contains(p) && exclude.contains(p) ==> a[p] == spec_apply(
                b,
                entries,
                exclude,
            )[p],
        forall|p: Seq<char>|
            #[trigger] a.dom().contains(p) && !exclude.contains(p) ==> a[p] == spec_apply(
                b,
                entries,
                exclude,
            )[p] || (b.dom().contains(p) && a[p] == b[p]),
    ensures
        spec_apply(a, entries, exclude) == spec_apply(b, entries, exclude),
    decreases entries.len(),
{
    if entries.len() == 0 {
        assert forall|p: Seq<char>| a.dom().contains(p) implies a[p] == b[p] by {}
        assert(a =~= b);
    } else {
        let e = entries[0];
        let rest = entries.drop_first();
        let b1 = spec_apply_entry(b, e, exclude);
        let t1 = spec_apply(b, entries, exclude);
        assert(t1 == spec_apply(b1, rest, exclude));
        match e.name {
            None => {
                assert(spec_apply_entry(a, e, exclude) == a);
                lemma_apply_rejoin(a, b, rest, exclude);
            },
            Some(nm) => {
                if exclude.contains(nm) && b.dom().contains(nm) {
                    assert(b1 == b);
                    assert(spec_apply_entry(a, e, exclude) == a);
                    lemma_apply_rejoin(a, b, rest, exclude);
                } else if exclude.contains(nm) {
                    // The first run writes the excluded path; the re-run
                    // finds it present and skips it.
                    lemma_apply_dom_preserved(b1, rest, exclude, nm);
                    assert(a.dom().contains(nm));
                    assert(spec_apply_entry(a, e, exclude) == a);
                    assert forall|p: Seq<char>| #[trigger] b1.dom().contains(p) implies a.dom().contains(
                        p,
                    ) by {}
                    assert forall|p: Seq<char>|
                        #[trigger] a.dom().contains(p) && !exclude.contains(p) implies a[p]
                        == spec_apply(b1, rest, exclude)[p] || (b1.dom().contains(p) && a[p]
                        == b1[p]) by {
                        if a[p] != spec_apply(b, entries, exclude)[p] {
                            assert(b.dom().contains(p) && a[p] == b[p]);
                            assert(p != nm);
                        }
                    }
                    lemma_apply_rejoin(a, b1, rest, exclude);
                } else {
                    // Both runs write the path with the same content.
                    let node = if e.is_dir {
                        NodeModel::Dir
                    } else {
                        NodeModel::File(e.data)
                    };
                    let a1 = spec_apply_entry(a, e, exclude);
                    assert(a1 == a.insert(nm, node));
                    assert(b1 == b.insert(nm, node));
                    lemma_apply_dom_preserved(b1, rest, exclude, nm);
                    assert(a1.dom() =~= spec_apply(b1, rest, exclude).dom());
                    assert forall|p: Seq<char>| #[trigger] b1.dom().contains(p) implies a1.dom().contains(
                        p,
                    ) by {}
                    assert forall|p: Seq<char>|
                        #[trigger] a1.dom().contains(p) && exclude.contains(p) implies a1[p]
                        == spec_apply(b1, rest, exclude)[p] by {
                        assert(p != nm);
                    }
                    assert forall|p: Seq<char>|
                        #[trigger] a1.dom().contains(p) && !exclude.contains(p) implies a1[p]
                        == spec_apply(b1, rest, exclude)[p] || (b1.dom().contains(p) && a1[p]
                        == b1[p]) by {
                        if p == nm {
                            assert(b1.dom().contains(nm) && a1[nm] == b1[nm]);
                        } else if a[p] != spec_apply(b, entries, exclude)[p] && a.dom().contains(
                            p,
                        ) {
                            assert(b.dom().contains(p) && a[p] == b[p]);
                        }
                    }
                    lemma_apply_rejoin(a1, b1, rest, exclude);
                    assert(spec_apply(a, entries, exclude) == spec_apply(a1, rest, exclude));
                }
            },
        }
    }
}

/// Applying the same archive twice to the same tree yields the tree of the
/// single application: the re-run skips the excluded paths the first run
/// created and rewrites every other touched path with identical content.
pub proof fn lemma_apply_idempotent(
    t: Map<Seq<char>, NodeModel>,
    entries: Seq<EntryModel>,
    exclude: Seq<Seq<char>>,
)
    ensures
        spec_apply(spec_apply(t, entries, exclude), entries, exclude) == spec_apply(
            t,
            entries,
            exclude,
        ),
{
    let t1 = spec_apply(t, entries, exclude);
    assert forall|p: Seq<char>| #[trigger] t.dom().contains(p) implies t1.dom().contains(p) by {
        lemma_apply_dom_preserved(t, entries, exclude, p);
    }
    lemma_apply_rejoin(t1, t, entries, exclude);
}

/// Applies the entries of a staged archive, in archive order, to a store
/// standing for the target tree.  Per entry: an unsafe name is ignored; an
/// excluded path already present is left untouched; a directory entry
/// creates a directory; a file entry writes the entry's bytes, overwriting
/// whatever the destination held.
pub fn apply_archive(store: &mut Store, entries: &Vec<ArchiveEntry>, exclude: &Vec<String>)
    ensures
        final(store)@ == spec_apply(old(store)@, entries.deep_view(), exclude.deep_view()),
{
    let n = entries.len();
    proof {
        assert(entries.deep_view().take(0) =~= Seq::<EntryModel>::empty());
    }
    for i in 0..n
        invariant
            n == entries@.len(),
            entries.deep_view().len() == n,
            store@ == spec_apply(
                old(store)@,
                entries.deep_view().take(i as int),
                exclude.deep_view(),
            ),
    {
        let entry = &entries[i];
        proof {
            assert(entries.deep_view()[i as int] == entries@[i as int]@);
        }
        match &entry.name {
            None => {},
            Some(p) => {
                let exists = store.contains(p);
                if should_skip(p, exclude, exists) {
                } else if entry.is_dir {
                    store.set(p, StoreNode::Dir);
                } else {
                    let data = vstd::slice::slice_to_vec(entry.data.as_slice());
                    store.set(p, StoreNode::File(data));
                }
            },
        }
        proof {
            lemma_apply_snoc(
                old(store)@,
                entries.deep_view().take(i as int),
                entries.deep_view()[i as int],
                exclude.deep_view(),
            );
            assert(entries.deep_view().take(i as int).push(entries.deep_view()[i as int])
                =~= entries.deep_view().take(i + 1));
        }
    }
    proof {
        assert(entries.deep_view().take(n as int) =~= entries.deep_view());
    }
}

} // verus!
