//! The walk over a directory tree, one directory at a time.
//!
//! The walk holds the directories that are still to be read, the next one
//! first, and the groups found so far. It never touches the file system: the
//! caller reads the directory that [`Walk::next_dir`] names and reports what
//! it found with [`Walk::visit`], or that it could not read it with
//! [`Walk::fail`].

use vstd::prelude::*;
use crate::index::{image_kind, kind_of_name, Recursive};

verus! {

/// One entry of a directory as the caller read it.
#[derive(Debug)]
pub struct Entry {
    /// Where the entry lies; this is what a group lists and what is read next.
    pub path: String,
    /// The last component of `path`; the extension is taken from it.
    pub name: String,
    /// Whether the entry is a directory.
    pub is_dir: bool,
}

pub struct EntryModel {
    pub path: Seq<char>,
    pub name: Seq<char>,
    pub is_dir: bool,
}

impl View for Entry {
    type V = EntryModel;

    open spec fn view(&self) -> EntryModel {
        EntryModel { path: self.path@, name: self.name@, is_dir: self.is_dir }
    }
}

/// The files that are compared with each other, under the directory that
/// names them.
#[derive(Debug)]
pub struct Group {
    pub key: String,
    pub files: Vec<String>,
}

pub struct GroupModel {
    pub key: Seq<char>,
    pub files: Seq<Seq<char>>,
}

impl View for Group {
    type V = GroupModel;

    open spec fn view(&self) -> GroupModel {
        GroupModel { key: self.key@, files: self.files.deep_view() }
    }
}

impl Group {
    /// Whether the group can hold a duplicate pair at all: it takes two
    /// files. A group with fewer is reported as free of duplicates without
    /// being searched.
    pub fn is_comparable(&self) -> (comparable: bool)
        ensures
            comparable == (self@.files.len() >= 2),
    {
        self.files.len() >= 2
    }
}

/// A directory that is still to be read. `levels` counts the levels of the
/// tree that may still be read from here on, this directory's own included.
pub struct Visit {
    pub dir: String,
    pub levels: u32,
}

pub struct VisitModel {
    pub dir: Seq<char>,
    pub levels: nat,
}

impl View for Visit {
    type V = VisitModel;

    open spec fn view(&self) -> VisitModel {
        VisitModel { dir: self.dir@, levels: self.levels as nat }
    }
}

/// The groups of a list as values.
pub open spec fn group_models(groups: Seq<Group>) -> Seq<GroupModel> {
    groups.map_values(|g: Group| g@)
}

/// The entries of a listing as values.
pub open spec fn entries(listing: Seq<Entry>) -> Seq<EntryModel> {
    listing.map_values(|e: Entry| e@)
}

/// Whether an entry is a candidate image: its name carries one of the
/// extensions that count.
pub open spec fn is_image(e: EntryModel) -> bool {
    kind_of_name(e.name) is Some
}

/// The paths of the candidate images of a listing, in the listing's order.
pub open spec fn candidates(listing: Seq<EntryModel>) -> Seq<Seq<char>> {
    listing.filter(|e: EntryModel| is_image(e)).map_values(|e: EntryModel| e.path)
}

/// The directories of a listing that are read after it, in the listing's
/// order: all of them where `levels` allows another level, else none.
pub open spec fn children(listing: Seq<EntryModel>, levels: nat) -> Seq<VisitModel> {
    if levels >= 2 {
        listing.filter(|e: EntryModel| e.is_dir).map_values(
            |e: EntryModel| VisitModel { dir: e.path, levels: (levels - 1) as nat },
        )
    } else {
        Seq::empty()
    }
}

/// The levels that a walk may read, the root's own included. Without
/// recursion that is the root alone, whatever depth was asked for; a depth of
/// zero still reads the root.
pub open spec fn levels_of(mode: Recursive, depth: u32) -> nat {
    if mode is Non || depth == 0 {
        1
    } else {
        depth as nat
    }
}

/// Where the first group named `key` stands among `groups`, looking from
/// `from` on; the number of groups where none is so named.
pub open spec fn position(groups: Seq<GroupModel>, key: Seq<char>, from: int) -> int
    decreases groups.len() - from,
{
    if from < 0 || from >= groups.len() {
        groups.len() as int
    } else if groups[from].key == key {
        from
    } else {
        position(groups, key, from + 1)
    }
}

/// The groups with `group` put among them under its name: in the place of
/// the group that bore the name, if there was one, and else at the end.
pub open spec fn put(groups: Seq<GroupModel>, group: GroupModel) -> Seq<GroupModel> {
    let at = position(groups, group.key, 0);
    if at < groups.len() {
        groups.update(at, group)
    } else {
        groups.push(group)
    }
}

/// Whether no two groups bear one name.
pub open spec fn keys_distinct(groups: Seq<GroupModel>) -> bool {
    forall|a: int, b: int|
        0 <= a < b < groups.len() ==> (#[trigger] groups[a]).key != (#[trigger] groups[b]).key
}

/// The state of a walk as values.
pub struct WalkModel {
    /// Whether all files go to the one group of the root.
    pub flat: bool,
    /// The directory that the walk started at.
    pub root: Seq<char>,
    /// The directories still to be read, the next one first.
    pub pending: Seq<VisitModel>,
    /// In a flat walk, the files found so far, in the order in which they
    /// were found.
    pub merged: Seq<Seq<char>>,
    /// In any other walk, the groups so far, in the order in which they were
    /// opened, each under the name of its directory and no two under one
    /// name.
    pub separate: Seq<GroupModel>,
    /// The directories that could not be read, in the order of the attempts.
    pub unreadable: Seq<Seq<char>>,
}

impl WalkModel {
    /// The groups of the walk: in a flat walk the one group of the root,
    /// else one group for each directory that was read.
    pub open spec fn groups(self) -> Seq<GroupModel> {
        if self.flat {
            seq![GroupModel { key: self.root, files: self.merged }]
        } else {
            self.separate
        }
    }

    /// The walk before anything was read.
    pub open spec fn start(root: Seq<char>, mode: Recursive, depth: u32) -> WalkModel {
        WalkModel {
            flat: mode is Flat,
            root,
            pending: seq![VisitModel { dir: root, levels: levels_of(mode, depth) }],
            merged: Seq::empty(),
            separate: Seq::empty(),
            unreadable: Seq::empty(),
        }
    }

    /// The walk after the next directory was read and held `listing`. Its
    /// candidate images join the root's group in a flat walk and form a
    /// group under the directory's own name otherwise, which takes the place
    /// of an earlier group under that name if the directory was read before;
    /// its subdirectories are read next, before anything that was pending.
    pub open spec fn after_listing(self, listing: Seq<EntryModel>) -> WalkModel {
        let visit = self.pending.first();
        let found = candidates(listing);
        WalkModel {
            flat: self.flat,
            root: self.root,
            pending: children(listing, visit.levels) + self.pending.drop_first(),
            merged: if self.flat {
                self.merged + found
            } else {
                self.merged
            },
            separate: if self.flat {
                self.separate
            } else {
                put(self.separate, GroupModel { key: visit.dir, files: found })
            },
            unreadable: self.unreadable,
        }
    }

    /// The walk after the next directory could not be read: the directory is
    /// recorded, and nothing below it is read.
    pub open spec fn after_failure(self) -> WalkModel {
        WalkModel {
            flat: self.flat,
            root: self.root,
            pending: self.pending.drop_first(),
            merged: self.merged,
            separate: self.separate,
            unreadable: self.unreadable.push(self.pending.first().dir),
        }
    }
}

/// What the caller reports of the directory that was to be read next.
pub enum Event {
    /// The directory was read and held these entries.
    Listed(Seq<EntryModel>),
    /// The directory could not be read.
    Unreadable,
}

impl WalkModel {
    /// The walk after one report. A walk that is over ignores reports.
    pub open spec fn step(self, event: Event) -> WalkModel {
        if self.pending.len() == 0 {
            self
        } else {
            match event {
                Event::Listed(listing) => self.after_listing(listing),
                Event::Unreadable => self.after_failure(),
            }
        }
    }

    /// The walk after a series of reports, taken in their order.
    pub open spec fn run(self, events: Seq<Event>) -> WalkModel
        decreases events.len(),
    {
        if events.len() == 0 {
            self
        } else {
            self.run(events.drop_last()).step(events.last())
        }
    }

    /// Whether the group at `at` is the work of the report at `by`: the
    /// report found the walk with a directory to read and listed it, and the
    /// group bears that directory's name and holds that listing's candidates
    /// and nothing else.
    pub open spec fn opened_by(self, events: Seq<Event>, at: int, by: int) -> bool {
        let earlier = self.run(events.take(by));
        &&& 0 <= by < events.len()
        &&& earlier.pending.len() > 0
        &&& events[by] matches Event::Listed(listing) && self.run(events).groups()[at] == (GroupModel {
            key: earlier.pending.first().dir,
            files: candidates(listing),
        })
    }
}

/// Without recursion the root is the only directory that is read: after the
/// first report nothing is pending, whatever the root held and whatever depth
/// was asked for.
pub proof fn lemma_without_recursion_only_root_is_read(
    root: Seq<char>,
    depth: u32,
    first: Event,
)
    ensures
        WalkModel::start(root, Recursive::Non, depth).step(first).pending.len() == 0,
{
    let walk = WalkModel::start(root, Recursive::Non, depth);
}

/// Where `position` points there is a group of the name, and before it
/// there is none; where it points nowhere, no group bears the name.
proof fn lemma_position(groups: Seq<GroupModel>, key: Seq<char>, from: int)
    requires
        0 <= from <= groups.len(),
    ensures
        from <= position(groups, key, from) <= groups.len(),
        position(groups, key, from) < groups.len() ==> groups[position(groups, key, from)].key
            == key,
        forall|k: int| from <= k < position(groups, key, from) ==> (#[trigger] groups[k]).key != key,
    decreases groups.len() - from,
{
    if from < groups.len() && groups[from].key != key {
        lemma_position(groups, key, from + 1);
    }
}

/// Putting a group among groups of distinct names leaves the names
/// distinct, and changes no group but the one of its name.
proof fn lemma_put(groups: Seq<GroupModel>, group: GroupModel)
    requires
        keys_distinct(groups),
    ensures
        keys_distinct(put(groups, group)),
        put(groups, group).len() >= groups.len(),
        put(groups, group)[position(groups, group.key, 0)] == group,
        forall|k: int|
            0 <= k < groups.len() && k != position(groups, group.key, 0) ==> (#[trigger] put(
                groups,
                group,
            )[k]) == groups[k],
{
    lemma_position(groups, group.key, 0);
    let at = position(groups, group.key, 0);
    let after = put(groups, group);
    assert forall|a: int, b: int| 0 <= a < b < after.len() implies (#[trigger] after[a]).key != (
    #[trigger] after[b]).key by {
        if at < groups.len() {
            assert(groups[a].key != groups[b].key);
            if a == at {
                assert(groups[at].key == group.key);
            }
        } else if b == groups.len() {
            assert(groups[a].key != group.key);
        } else {
            assert(groups[a].key != groups[b].key);
        }
    }
}

/// No two groups of a walk bear one name, however the walk proceeds and
/// whatever it is told, a directory reported twice included.
pub proof fn lemma_group_keys_are_distinct(
    root: Seq<char>,
    mode: Recursive,
    depth: u32,
    events: Seq<Event>,
)
    ensures
        keys_distinct(WalkModel::start(root, mode, depth).run(events).groups()),
{
    let walk = WalkModel::start(root, mode, depth);
    lemma_separate_keys_are_distinct(walk, events);
}

proof fn lemma_separate_keys_are_distinct(walk: WalkModel, events: Seq<Event>)
    requires
        keys_distinct(walk.separate),
    ensures
        keys_distinct(walk.run(events).separate),
    decreases events.len(),
{
    if events.len() > 0 {
        lemma_separate_keys_are_distinct(walk, events.drop_last());
        let earlier = walk.run(events.drop_last());
        if earlier.pending.len() > 0 && !earlier.flat {
            match events.last() {
                Event::Listed(listing) => {
                    lemma_put(
                        earlier.separate,
                        GroupModel { key: earlier.pending.first().dir, files: candidates(listing) },
                    );
                },
                Event::Unreadable => {},
            }
        }
    }
}

/// A walk that keeps directories apart never merges the files of two
/// directories: however it proceeds, each of its groups is the work of one
/// report of a directory read, and holds the candidates of that one
/// directory under its name.
pub proof fn lemma_segmented_groups_hold_one_directory(
    root: Seq<char>,
    depth: u32,
    events: Seq<Event>,
    at: int,
)
    requires
        0 <= at < WalkModel::start(root, Recursive::Segmented, depth).run(events).groups().len(),
    ensures
        exists|by: int| #[trigger]
            WalkModel::start(root, Recursive::Segmented, depth).opened_by(events, at, by),
    decreases events.len(),
{
    let walk = WalkModel::start(root, Recursive::Segmented, depth);
    lemma_run_keeps_mode(walk, events);
    if events.len() > 0 {
        let shorter = events.drop_last();
        let earlier = walk.run(shorter);
        lemma_run_keeps_mode(walk, shorter);
        lemma_separate_keys_are_distinct(walk, shorter);
        assert(events.take(events.len() - 1) =~= shorter);
        let fresh = earlier.pending.len() > 0 && events.last() is Listed;
        if fresh {
            let group = GroupModel {
                key: earlier.pending.first().dir,
                files: candidates(events.last()->Listed_0),
            };
            lemma_put(earlier.separate, group);
            lemma_position(earlier.separate, group.key, 0);
        }
        if fresh && at == position(earlier.separate, earlier.pending.first().dir, 0) {
            assert(walk.opened_by(events, at, events.len() - 1));
        } else {
            lemma_segmented_groups_hold_one_directory(root, depth, shorter, at);
            let by = choose|by: int| #[trigger] walk.opened_by(shorter, at, by);
            assert(shorter.take(by) =~= events.take(by));
            assert(walk.opened_by(events, at, by));
        }
    }
}

/// A walk that merges has one group, named by the root, at every moment.
pub proof fn lemma_flat_walk_has_one_group(root: Seq<char>, depth: u32, events: Seq<Event>)
    ensures
        WalkModel::start(root, Recursive::Flat, depth).run(events).groups().len() == 1,
        WalkModel::start(root, Recursive::Flat, depth).run(events).groups()[0].key == root,
{
    lemma_run_keeps_mode(WalkModel::start(root, Recursive::Flat, depth), events);
}

proof fn lemma_run_keeps_mode(walk: WalkModel, events: Seq<Event>)
    ensures
        walk.run(events).flat == walk.flat,
        walk.run(events).root == walk.root,
    decreases events.len(),
{
    if events.len() > 0 {
        lemma_run_keeps_mode(walk, events.drop_last());
    }
}

/// A walk in progress.
pub struct Walk {
    flat: bool,
    root: String,
    stack: Vec<Visit>,
    merged: Vec<String>,
    groups: Vec<Group>,
    unreadable: Vec<String>,
}

/// The directories of a stack in the order in which they are read: the one
/// that was put on it last comes first.
pub open spec fn pending_of(stack: Seq<Visit>) -> Seq<VisitModel> {
    Seq::new(stack.len(), |i: int| stack[stack.len() - 1 - i]@)
}

impl View for Walk {
    type V = WalkModel;

    closed spec fn view(&self) -> WalkModel {
        WalkModel {
            flat: self.flat,
            root: self.root@,
            pending: pending_of(self.stack@),
            merged: self.merged.deep_view(),
            separate: group_models(self.groups@),
            unreadable: self.unreadable.deep_view(),
        }
    }
}

proof fn lemma_candidates_push(listing: Seq<EntryModel>, e: EntryModel)
    ensures
        candidates(listing.push(e)) == if is_image(e) {
            candidates(listing).push(e.path)
        } else {
            candidates(listing)
        },
{
    let pred = |e: EntryModel| is_image(e);
    let path = |e: EntryModel| e.path;
    listing.lemma_filter_push(e, pred);
    if is_image(e) {
        assert(listing.filter(pred).push(e).map_values(path) =~= listing.filter(pred).map_values(
            path,
        ).push(e.path));
    }
}

proof fn lemma_children_prepend(listing: Seq<EntryModel>, e: EntryModel, levels: nat)
    ensures
        children(seq![e] + listing, levels) == if levels >= 2 && e.is_dir {
            seq![VisitModel { dir: e.path, levels: (levels - 1) as nat }] + children(
                listing,
                levels,
            )
        } else {
            children(listing, levels)
        },
{
    if levels >= 2 {
        let pred = |e: EntryModel| e.is_dir;
        let visit = |e: EntryModel| VisitModel { dir: e.path, levels: (levels - 1) as nat };
        listing.lemma_filter_prepend(e, pred);
        if e.is_dir {
            assert((seq![e] + listing.filter(pred)).map_values(visit) =~= seq![visit(e)]
                + listing.filter(pred).map_values(visit));
        }
    }
}

impl Walk {
    /// No two groups bear one name.
    #[verifier::type_invariant]
    spec fn names_are_distinct(self) -> bool {
        keys_distinct(group_models(self.groups@))
    }

    /// Starts a walk at `root`.
    pub fn new(root: String, mode: Recursive, depth: u32) -> (walk: Walk)
        ensures
            walk@ == WalkModel::start(root@, mode, depth),
    {
        let flat: bool = match mode {
            Recursive::Flat => true,
            _ => false,
        };
        let levels: u32 = match mode {
            Recursive::Non => 1,
            _ => if depth == 0 {
                1
            } else {
                depth
            },
        };
        let mut stack: Vec<Visit> = Vec::new();
        stack.push(Visit { dir: root.clone(), levels });
        let walk = Walk {
            flat,
            root,
            stack,
            merged: Vec::new(),
            groups: Vec::new(),
            unreadable: Vec::new(),
        };
        proof {
            let model = WalkModel::start(root@, mode, depth);
            assert(walk@.pending =~= model.pending);
            assert(walk@.separate =~= model.separate);
            assert(walk@.unreadable =~= model.unreadable);
        }
        walk
    }

    /// The directory to read next, or `None` when the walk is over.
    pub fn next_dir(&self) -> (dir: Option<&String>)
        ensures
            dir is None <==> self@.pending.len() == 0,
            dir matches Some(d) ==> d@ == self@.pending.first().dir,
    {
        let n: usize = self.stack.len();
        if n == 0 {
            None
        } else {
            Some(&self.stack[n - 1].dir)
        }
    }

    /// Takes in the entries of the directory that was to be read next, and
    /// gives the walk as it goes on. A walk that is over takes nothing in.
    pub fn visit(self, listing: &Vec<Entry>) -> (next: Walk)
        ensures
            next@ == self@.step(Event::Listed(entries(listing@))),
    {
        let ghost before = self@;
        let ghost all = entries(listing@);
        proof {
            use_type_invariant(&self);
        }
        if self.stack.len() == 0 {
            return self;
        }
        let Walk { flat, root, mut stack, mut merged, mut groups, unreadable } = self;
        let visit = stack.pop().unwrap();
        let ghost rest = pending_of(stack@);
        proof {
            assert(rest =~= before.pending.drop_first());
        }

        let mut found: Vec<String> = Vec::new();
        let mut i: usize = 0;
        proof {
            reveal_with_fuel(Seq::filter, 1);
        }
        while i < listing.len()
            invariant
                0 <= i <= listing@.len(),
                all == entries(listing@),
                found.deep_view() == candidates(all.take(i as int)),
            decreases listing@.len() - i,
        {
            proof {
                lemma_candidates_push(all.take(i as int), all[i as int]);
                assert(all.take(i + 1) =~= all.take(i as int).push(all[i as int]));
            }
            if image_kind(listing[i].name.as_str()).is_some() {
                found.push(listing[i].path.clone());
            }
            i += 1;
        }
        proof {
            assert(all.take(listing@.len() as int) =~= all);
        }

        let levels: u32 = visit.levels;
        if flat {
            let ghost earlier = merged.deep_view();
            merged.append(&mut found);
            assert(merged.deep_view() =~= earlier + candidates(all));
        } else {
            let ghost models = group_models(groups@);
            let ghost key = visit.dir@;
            let mut at: usize = 0;
            while at < groups.len() && !(groups[at].key == visit.dir)
                invariant
                    0 <= at <= groups@.len(),
                    models == group_models(groups@),
                    key == visit.dir@,
                    position(models, key, 0) == position(models, key, at as int),
                decreases groups@.len() - at,
            {
                at += 1;
            }
            let group = Group { key: visit.dir, files: found };
            proof {
                lemma_put(models, group@);
            }
            if at < groups.len() {
                groups.set(at, group);
            } else {
                groups.push(group);
            }
            assert(group_models(groups@) =~= before.after_listing(all).separate);
        }

        if levels >= 2 {
            let mut j: usize = listing.len();
            proof {
                reveal_with_fuel(Seq::filter, 1);
            }
            while j > 0
                invariant
                    0 <= j <= listing@.len(),
                    levels >= 2,
                    all == entries(listing@),
                    pending_of(stack@) == children(all.skip(j as int), levels as nat) + rest,
                decreases j,
            {
                j -= 1;
                proof {
                    lemma_children_prepend(all.skip(j + 1), all[j as int], levels as nat);
                    assert(all.skip(j as int) =~= seq![all[j as int]] + all.skip(j + 1));
                }
                if listing[j].is_dir {
                    let ghost pending = pending_of(stack@);
                    stack.push(Visit { dir: listing[j].path.clone(), levels: levels - 1 });
                    proof {
                        let pushed = VisitModel {
                            dir: all[j as int].path,
                            levels: (levels - 1) as nat,
                        };
                        assert(pending_of(stack@) =~= seq![pushed] + pending);
                        assert(seq![pushed] + (children(all.skip(j + 1), levels as nat) + rest)
                            =~= (seq![pushed] + children(all.skip(j + 1), levels as nat)) + rest);
                    }
                }
            }
        }
        Walk { flat, root, stack, merged, groups, unreadable }
    }

    /// Records that the directory that was to be read next could not be
    /// read, and gives the walk as it goes on. A walk that is over records
    /// nothing.
    pub fn fail(self) -> (next: Walk)
        ensures
            next@ == self@.step(Event::Unreadable),
    {
        let ghost before = self@;
        proof {
            use_type_invariant(&self);
        }
        if self.stack.len() == 0 {
            return self;
        }
        let Walk { flat, root, mut stack, merged, groups, mut unreadable } = self;
        let visit = stack.pop().unwrap();
        let ghost names = unreadable.deep_view();
        unreadable.push(visit.dir);
        proof {
            assert(pending_of(stack@) =~= before.pending.drop_first());
            assert(unreadable.deep_view() =~= names.push(before.pending.first().dir));
        }
        Walk { flat, root, stack, merged, groups, unreadable }
    }

    /// The directories that could not be read, in the order of the attempts.
    pub fn unreadable(&self) -> (dirs: &Vec<String>)
        ensures
            dirs.deep_view() == self@.unreadable,
    {
        &self.unreadable
    }

    /// Ends the walk and hands out its groups, no two of them under one
    /// name.
    pub fn into_groups(self) -> (groups: Vec<Group>)
        ensures
            group_models(groups@) == self@.groups(),
            keys_distinct(group_models(groups@)),
    {
        proof {
            use_type_invariant(&self);
        }
        if self.flat {
            let mut groups: Vec<Group> = Vec::new();
            groups.push(Group { key: self.root, files: self.merged });
            groups
        } else {
            self.groups
        }
    }
}

} // verus!
