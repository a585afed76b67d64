//! Mount links and the mount table: which name service serves a path, and under which name.
use vstd::prelude::*;

use crate::address::{NameService, NameServiceView};
use crate::path::{
    below, component_count, components, is_absolute, is_under, join, join_text,
    law_below_keeps_text, law_join_is_text, law_last_name_lies_below, law_leading_part,
    law_name_is_kept, law_trailing_separator, lemma_below, lemma_has_component, lemma_join,
    same_path, starts_with, strip_base,
};
use crate::shared::share;
use crate::text::optional_text;
use std::sync::Arc;

verus! {

/// A path of the client's name space and the place of a name service that it stands for.
#[derive(Debug)]
pub struct MountLink {
    pub viewfs_path: String,
    pub hdfs_path: String,
    pub protocol: Arc<NameService>,
}

/// What a mount link says.
#[verifier::ext_equal]
pub struct LinkView {
    pub viewfs_path: Seq<char>,
    pub hdfs_path: Seq<char>,
    pub protocol: NameServiceView,
}

impl View for MountLink {
    type V = LinkView;

    open spec fn view(&self) -> LinkView {
        LinkView {
            viewfs_path: self.viewfs_path@,
            hdfs_path: self.hdfs_path@,
            protocol: self.protocol@,
        }
    }
}

/// A path, or the root in place of an empty one.
pub open spec fn or_root(path: Seq<char>) -> Seq<char> {
    if path.len() == 0 {
        seq!['/']
    } else {
        path
    }
}

/// The link that mounts a place of a name service at a path; an empty path means the root.
pub open spec fn link_between(
    viewfs_path: Seq<char>,
    hdfs_path: Seq<char>,
    protocol: NameServiceView,
) -> LinkView {
    LinkView { viewfs_path: or_root(viewfs_path), hdfs_path: or_root(hdfs_path), protocol }
}

impl LinkView {
    /// Neither path of a link is empty.
    pub open spec fn wf(self) -> bool {
        &&& self.viewfs_path.len() > 0
        &&& self.hdfs_path.len() > 0
    }

    /// The number of components of the mount point.
    pub open spec fn depth(self) -> nat {
        components(self.viewfs_path).len()
    }

    /// `path` is the mount point or lies under it.
    pub open spec fn serves(self, path: Seq<char>) -> bool {
        starts_with(path, self.viewfs_path)
    }

    /// The path on the name service that a served path stands for: the link's place itself for
    /// the mount point, else what lies below the mount point, joined onto that place.
    pub open spec fn target(self, path: Seq<char>) -> Seq<char> {
        let rest = below(path, self.depth() as int);
        if components(rest).len() == 0 {
            self.hdfs_path
        } else {
            join(self.hdfs_path, rest)
        }
    }
}

impl MountLink {
    pub open spec fn wf(&self) -> bool {
        self@.wf()
    }

    /// Mounts `hdfs_path` of a name service at `viewfs_path`. Things are mounted at the root
    /// where a path is empty.
    pub fn new(viewfs_path: &str, hdfs_path: &str, protocol: Arc<NameService>) -> (res: Self)
        ensures
            res@ == link_between(viewfs_path@, hdfs_path@, protocol@),
            res.viewfs_path@ == if viewfs_path@.len() == 0 {
                seq!['/']
            } else {
                viewfs_path@
            },
            res.hdfs_path@ == if hdfs_path@.len() == 0 {
                seq!['/']
            } else {
                hdfs_path@
            },
            res.protocol == protocol,
            res.wf(),
    {
        proof {
            reveal_strlit("/");
            assert("/"@ =~= seq!['/']);
        }
        MountLink {
            viewfs_path: if viewfs_path.is_empty() {
                "/".to_string()
            } else {
                viewfs_path.to_string()
            },
            hdfs_path: if hdfs_path.is_empty() {
                "/".to_string()
            } else {
                hdfs_path.to_string()
            },
            protocol,
        }
    }

    /// Converts a path into a name service path if it matches this link.
    pub fn resolve(&self, path: &str) -> (res: Option<String>)
        requires
            self.wf(),
        ensures
            optional_text(res) == if self@.serves(path@) {
                Some(self@.target(path@))
            } else {
                None
            },
            res is Some <==> components(self.viewfs_path@).is_prefix_of(components(path@)),
    {
        proof {
            law_leading_part(path@, self.viewfs_path@);
        }
        match strip_base(path, &self.viewfs_path) {
            Some(rest) => if component_count(&rest) == 0 {
                Some(self.hdfs_path.clone())
            } else {
                Some(join_text(&self.hdfs_path, &rest))
            },
            None => None,
        }
    }

    /// Whether `path` matches this link.
    pub fn serves_path(&self, path: &str) -> (res: bool)
        ensures
            res == self@.serves(path@),
            res == components(self.viewfs_path@).is_prefix_of(components(path@)),
    {
        proof {
            law_leading_part(path@, self.viewfs_path@);
        }
        is_under(path, &self.viewfs_path)
    }
}

impl Clone for MountLink {
    fn clone(&self) -> (res: Self)
        ensures
            res@ == self@,
            res.viewfs_path@ == self.viewfs_path@,
            res.hdfs_path@ == self.hdfs_path@,
            res.protocol == self.protocol,
    {
        MountLink {
            viewfs_path: self.viewfs_path.clone(),
            hdfs_path: self.hdfs_path.clone(),
            protocol: share(&self.protocol),
        }
    }
}

/// What a list of links says.
pub open spec fn link_views(links: Seq<MountLink>) -> Seq<LinkView> {
    links.map_values(|l: MountLink| l@)
}

/// The mount links in the order in which they are tried, and the link for every other path.
#[derive(Debug)]
pub struct MountTable {
    pub mounts: Vec<MountLink>,
    pub fallback: MountLink,
}

/// What a mount table says.
#[verifier::ext_equal]
pub struct TableView {
    pub mounts: Seq<LinkView>,
    pub fallback: LinkView,
}

impl View for MountTable {
    type V = TableView;

    open spec fn view(&self) -> TableView {
        TableView { mounts: link_views(self.mounts@), fallback: self.fallback@ }
    }
}

/// The first link that serves `path`.
pub open spec fn first_serving(links: Seq<LinkView>, path: Seq<char>) -> Option<LinkView>
    decreases links.len(),
{
    if links.len() == 0 {
        None
    } else if links[0].serves(path) {
        Some(links[0])
    } else {
        first_serving(links.drop_first(), path)
    }
}

/// No link is mounted less deep than one after it.
pub open spec fn deepest_first(links: Seq<LinkView>) -> bool {
    forall|i: int, j: int| 0 <= i <= j < links.len() ==> links[i].depth() >= links[j].depth()
}

impl TableView {
    /// No link has an empty path.
    pub open spec fn wf(self) -> bool {
        &&& forall|i: int| 0 <= i < self.mounts.len() ==> (#[trigger] self.mounts[i]).wf()
        &&& self.fallback.wf()
    }

    /// The fallback is mounted at the root, so that it serves every absolute path.
    pub open spec fn rooted(self) -> bool {
        &&& self.wf()
        &&& self.fallback.viewfs_path == seq!['/']
    }

    /// The table of a client: besides, deep mount points are tried before shallow ones.
    pub open spec fn ordered(self) -> bool {
        &&& self.rooted()
        &&& deepest_first(self.mounts)
    }

    /// The link for a path: the first mount that serves it, else the fallback.
    pub open spec fn link_for(self, path: Seq<char>) -> LinkView {
        match first_serving(self.mounts, path) {
            Some(link) => link,
            None => self.fallback,
        }
    }

    /// Some link of the table serves `path`.
    pub open spec fn covers(self, path: Seq<char>) -> bool {
        self.link_for(path).serves(path)
    }

    /// The path on the name service that `path` stands for.
    pub open spec fn target(self, path: Seq<char>) -> Seq<char> {
        self.link_for(path).target(path)
    }
}

impl MountTable {
    pub open spec fn wf(&self) -> bool {
        self@.wf()
    }

    /// The index of the first mount that serves `path`; the number of mounts if none does.
    fn position(&self, path: &str) -> (res: usize)
        ensures
            res <= self.mounts@.len(),
            res < self.mounts@.len() ==> first_serving(self@.mounts, path@) == Some(
                self.mounts@[res as int]@,
            ),
            res == self.mounts@.len() ==> first_serving(self@.mounts, path@) is None,
    {
        let mut i: usize = 0;
        let ghost links = self@.mounts;
        assert(links.skip(0) =~= links);
        while i < self.mounts.len()
            invariant
                links == self@.mounts,
                i <= self.mounts@.len(),
                first_serving(links, path@) == first_serving(links.skip(i as int), path@),
            decreases self.mounts@.len() - i,
        {
            assert(links.skip(i as int)[0] == self.mounts@[i as int]@);
            if self.mounts[i].serves_path(path) {
                return i;
            }
            assert(links.skip(i as int).drop_first() =~= links.skip(i + 1));
            i = i + 1;
        }
        i
    }

    /// Whether some link of the table serves `path`.
    pub fn covers_path(&self, path: &str) -> (res: bool)
        ensures
            res == self@.covers(path@),
    {
        let i = self.position(path);
        if i < self.mounts.len() {
            proof {
                lemma_first_serving(self@.mounts, path@);
            }
            true
        } else {
            self.fallback.serves_path(path)
        }
    }

    /// The link for `src` and the path on its name service.
    pub fn resolve(&self, src: &str) -> (res: (&MountLink, String))
        requires
            self.wf(),
            self@.covers(src@),
        ensures
            res.0@ == self@.link_for(src@),
            res.1@ == self@.target(src@),
            *res.0 == self.fallback || self.mounts@.contains(*res.0),
            components(res.0.viewfs_path@).is_prefix_of(components(src@)),
    {
        let i = self.position(src);
        let link: &MountLink = if i < self.mounts.len() {
            assert(self@.mounts[i as int] == self.mounts@[i as int]@);
            &self.mounts[i]
        } else {
            &self.fallback
        };
        assert(i < self.mounts@.len() ==> *link == self.mounts@[i as int]);
        let resolved = link.resolve(src);
        match resolved {
            Some(target) => (link, target),
            None => {
                assert(false);
                (link, String::new())
            },
        }
    }
}

/// The first link that serves a path is one of the links, serves the path, and none before it
/// does.
pub(crate) proof fn lemma_first_serving(links: Seq<LinkView>, path: Seq<char>)
    ensures
        match first_serving(links, path) {
            Some(link) => exists|i: int|
                0 <= i < links.len() && #[trigger] links[i] == link && link.serves(path) && (forall|
                    j: int,
                |
                    0 <= j < i ==> !(#[trigger] links[j]).serves(path)),
            None => forall|i: int| 0 <= i < links.len() ==> !(#[trigger] links[i]).serves(path),
        },
    decreases links.len(),
{
    if links.len() > 0 && !links[0].serves(path) {
        let rest = links.drop_first();
        lemma_first_serving(rest, path);
        match first_serving(rest, path) {
            Some(link) => {
                let i = choose|i: int|
                    0 <= i < rest.len() && #[trigger] rest[i] == link && link.serves(path) && (
                    forall|j: int| 0 <= j < i ==> !(#[trigger] rest[j]).serves(path));
                assert(links[i + 1] == link);
                assert forall|j: int| 0 <= j < i + 1 implies !(#[trigger] links[j]).serves(path) by {
                    if j > 0 {
                        assert(rest[j - 1] == links[j]);
                    }
                }
            },
            None => {
                assert forall|i: int| 0 <= i < links.len() implies !(#[trigger] links[i]).serves(
                    path,
                ) by {
                    if i > 0 {
                        assert(rest[i - 1] == links[i]);
                    }
                }
            },
        }
    } else if links.len() > 0 {
        assert(links[0] == first_serving(links, path)->0);
    }
}

/// A link resolves at component level: the components of the mount point are replaced by those
/// of the link's place, and the others are kept.
pub proof fn law_resolve_replaces_mount_point(link: LinkView, path: Seq<char>)
    requires
        link.wf(),
        link.serves(path),
    ensures
        components(link.target(path)) == components(link.hdfs_path) + components(path).skip(
            link.depth() as int,
        ),
{
    let n = link.depth() as int;
    lemma_has_component(link.viewfs_path);
    lemma_below(path, n);
    lemma_join(link.hdfs_path, below(path, n));
    if components(below(path, n)).len() == 0 {
        assert(components(link.hdfs_path) + components(path).skip(n) =~= components(
            link.hdfs_path,
        ));
    }
}

/// What a link says is what it holds.
pub proof fn law_link_says_what_it_holds(link: MountLink)
    ensures
        link@.viewfs_path == link.viewfs_path@,
        link@.hdfs_path == link.hdfs_path@,
        link@.protocol == link.protocol@,
{
}

/// What a table says is what it holds, link for link.
pub proof fn law_table_says_what_it_holds(table: MountTable)
    ensures
        table@.mounts.len() == table.mounts@.len(),
        forall|i: int| 0 <= i < table.mounts@.len() ==> table@.mounts[i] == (
        #[trigger] table.mounts@[i])@,
        table@.fallback == table.fallback@,
{
}

/// A link serves the paths that begin with all components of its mount point, and no others.
pub proof fn law_link_serves_what_lies_under_it(link: LinkView, path: Seq<char>)
    ensures
        link.serves(path) <==> components(link.viewfs_path).is_prefix_of(components(path)),
        link.depth() == components(link.viewfs_path).len(),
{
    law_leading_part(path, link.viewfs_path);
}

/// A link keeps what lies below its mount point character for character: the text behind the
/// mount point comes behind the link's place, with one separator between them.
pub proof fn law_resolve_keeps_text(link: LinkView, dir: Seq<char>, rest: Seq<char>)
    requires
        link.viewfs_path.len() > 0,
        link.hdfs_path.len() > 0,
        components(dir) == components(link.viewfs_path),
        dir.len() > 0,
        dir.last() == '/',
        rest.len() > 0,
        rest[0] != '/',
        rest.last() != '/',
        rest != seq!['.'],
        !(rest.len() >= 2 && rest[0] == '.' && rest[1] == '/'),
        !(rest.len() >= 2 && rest[rest.len() - 2] == '/' && rest.last() == '.'),
    ensures
        link.serves(dir + rest),
        link.hdfs_path.last() == '/' ==> link.target(dir + rest) == link.hdfs_path + rest,
        link.hdfs_path.last() != '/' ==> link.target(dir + rest) == link.hdfs_path + seq!['/']
            + rest,
{
    law_link_serves_what_lies_under_it(link, dir + rest);
    law_below_keeps_text(dir, rest);
    lemma_has_component(rest);
    law_join_is_text(link.hdfs_path, rest);
}

/// A path below the mount point keeps its last name: what it resolves to ends in that name.
pub proof fn law_resolve_keeps_last_name(link: LinkView, dir: Seq<char>, name: Seq<char>)
    requires
        link.viewfs_path.len() > 0,
        link.hdfs_path.len() > 0,
        name.len() > 0,
        name != seq!['.'],
        forall|i: int| 0 <= i < name.len() ==> name[i] != '/',
        components(link.viewfs_path).is_prefix_of(components(dir + seq!['/'] + name)),
        components(link.viewfs_path) != components(dir + seq!['/'] + name),
    ensures
        link.serves(dir + seq!['/'] + name),
        name.is_suffix_of(link.target(dir + seq!['/'] + name)),
        components(link.target(dir + seq!['/'] + name)).last() == name,
{
    let path = dir + seq!['/'] + name;
    let n = link.depth() as int;
    law_link_serves_what_lies_under_it(link, path);
    lemma_has_component(link.viewfs_path);
    if n == components(path).len() {
        assert(components(link.viewfs_path) =~= components(path));
    }
    law_last_name_lies_below(dir, name, n);
    law_name_is_kept(dir, name);
    lemma_below(path, n);
    let rest = below(path, n);
    law_join_is_text(link.hdfs_path, rest);
    let target = link.target(path);
    assert(target.subrange(target.len() - name.len(), target.len() as int) =~= rest.subrange(
        rest.len() - name.len(),
        rest.len() as int,
    ));
    law_resolve_replaces_mount_point(link, path);
    assert(components(path).last() == name) by {
        if dir.len() == 0 {
            assert(path =~= seq!['/'] + name);
        }
    }
}

/// The link for a path is the first mount that the path lies under, or the fallback if it lies
/// under none; what the path resolves to is up to that link alone.
pub proof fn law_first_mount_above_path_is_chosen(table: TableView, path: Seq<char>, i: int)
    requires
        0 <= i <= table.mounts.len(),
        forall|j: int|
            0 <= j < i ==> !components((#[trigger] table.mounts[j]).viewfs_path).is_prefix_of(
                components(path),
            ),
        i < table.mounts.len() ==> components(table.mounts[i].viewfs_path).is_prefix_of(
            components(path),
        ),
    ensures
        i < table.mounts.len() ==> table.link_for(path) == table.mounts[i],
        i == table.mounts.len() ==> table.link_for(path) == table.fallback,
        table.target(path) == table.link_for(path).target(path),
        table.covers(path) <==> components(table.link_for(path).viewfs_path).is_prefix_of(
            components(path),
        ),
    decreases i,
{
    law_link_serves_what_lies_under_it(table.link_for(path), path);
    if table.mounts.len() > 0 {
        let rest = TableView { mounts: table.mounts.drop_first(), ..table };
        law_link_serves_what_lies_under_it(table.mounts[0], path);
        if i > 0 {
            assert(!components(table.mounts[0].viewfs_path).is_prefix_of(components(path)));
            assert forall|j: int| 0 <= j < i - 1 implies !components(
                (#[trigger] rest.mounts[j]).viewfs_path,
            ).is_prefix_of(components(path)) by {
                assert(rest.mounts[j] == table.mounts[j + 1]);
            }
            law_first_mount_above_path_is_chosen(rest, path, i - 1);
        }
    }
}

/// The mount point itself resolves to exactly the link's place, however it is spelled.
pub proof fn law_mount_point_resolves_to_place(link: LinkView, path: Seq<char>)
    requires
        link.wf(),
        components(path) == components(link.viewfs_path),
    ensures
        link.serves(path),
        link.target(path) == link.hdfs_path,
{
    lemma_has_component(link.viewfs_path);
    lemma_below(path, link.depth() as int);
    assert(components(path).take(components(path).len() as int) =~= components(path));
}

/// A link whose place is absolute resolves to absolute paths only.
pub proof fn law_resolve_keeps_absolute(link: LinkView, path: Seq<char>)
    requires
        link.wf(),
        link.serves(path),
        is_absolute(link.hdfs_path),
    ensures
        is_absolute(link.target(path)),
{
    let n = link.depth() as int;
    lemma_has_component(link.viewfs_path);
    lemma_below(path, n);
    lemma_join(link.hdfs_path, below(path, n));
}

/// The most specific mount wins: no mount that serves a path is mounted deeper than the link
/// that is chosen for it, and one that is mounted equally deep has the same mount point.
pub proof fn law_most_specific_mount(table: TableView, path: Seq<char>, i: int)
    requires
        deepest_first(table.mounts),
        0 <= i < table.mounts.len(),
        components(table.mounts[i].viewfs_path).is_prefix_of(components(path)),
    ensures
        table.mounts.contains(table.link_for(path)),
        components(table.link_for(path).viewfs_path).is_prefix_of(components(path)),
        components(table.link_for(path).viewfs_path).len() >= components(
            table.mounts[i].viewfs_path,
        ).len(),
        components(table.link_for(path).viewfs_path).len() == components(
            table.mounts[i].viewfs_path,
        ).len() ==> components(table.link_for(path).viewfs_path) == components(
            table.mounts[i].viewfs_path,
        ),
{
    lemma_first_serving(table.mounts, path);
    law_link_serves_what_lies_under_it(table.mounts[i], path);
    law_link_serves_what_lies_under_it(table.link_for(path), path);
}

/// The fallback is used exactly if no mount serves the path.
pub proof fn law_fallback_only_without_mount(table: TableView, path: Seq<char>)
    ensures
        first_serving(table.mounts, path) is None <==> (forall|i: int|
            0 <= i < table.mounts.len() ==> !(#[trigger] table.mounts[i]).serves(path)),
        first_serving(table.mounts, path) is None ==> table.link_for(path) == table.fallback,
{
    lemma_first_serving(table.mounts, path);
}

/// A separator at the end of a path changes neither the link nor what it resolves to.
pub proof fn law_trailing_separator_resolves_alike(table: TableView, path: Seq<char>)
    requires
        table.wf(),
        path.len() > 0,
        table.covers(path),
    ensures
        table.covers(path + seq!['/']),
        table.link_for(path + seq!['/']) == table.link_for(path),
        table.target(path + seq!['/']) == table.target(path),
{
    lemma_has_component(path);
    law_trailing_separator(path, 1);
    lemma_first_serving_same(table.mounts, path, path + seq!['/']);
    let link = table.link_for(path);
    lemma_link_for_wf(table, path);
    lemma_has_component(link.viewfs_path);
    law_trailing_separator(path, link.depth() as int);
}

/// Which link serves a path depends on its components only.
pub(crate) proof fn lemma_first_serving_same(links: Seq<LinkView>, a: Seq<char>, b: Seq<char>)
    requires
        same_path(a, b),
    ensures
        first_serving(links, a) == first_serving(links, b),
    decreases links.len(),
{
    if links.len() > 0 {
        lemma_first_serving_same(links.drop_first(), a, b);
    }
}

/// The link for a path is a link of the table.
pub(crate) proof fn lemma_link_for_wf(table: TableView, path: Seq<char>)
    requires
        table.wf(),
    ensures
        table.link_for(path).wf(),
{
    lemma_first_serving(table.mounts, path);
}

/// Two covered paths are served at the same mount point exactly if the same link serves them. So
/// a rename, which needs one mount point for both paths, never leaves a name service.
pub proof fn law_same_mount_point_same_link(table: TableView, a: Seq<char>, b: Seq<char>)
    requires
        table.covers(a),
        table.covers(b),
    ensures
        components(table.link_for(a).viewfs_path) == components(table.link_for(b).viewfs_path)
            <==> table.link_for(a) == table.link_for(b),
{
    let x = table.link_for(a);
    let y = table.link_for(b);
    if same_path(x.viewfs_path, y.viewfs_path) {
        assert(x.serves(b));
        assert(y.serves(a));
        lemma_first_serving(table.mounts, a);
        lemma_first_serving(table.mounts, b);
        match (first_serving(table.mounts, a), first_serving(table.mounts, b)) {
            (Some(_), Some(_)) => {
                let i = choose|i: int|
                    0 <= i < table.mounts.len() && #[trigger] table.mounts[i] == x && x.serves(a)
                        && (forall|j: int|
                        0 <= j < i ==> !(#[trigger] table.mounts[j]).serves(a));
                let j = choose|i: int|
                    0 <= i < table.mounts.len() && #[trigger] table.mounts[i] == y && y.serves(b)
                        && (forall|j: int|
                        0 <= j < i ==> !(#[trigger] table.mounts[j]).serves(b));
                if i < j {
                    assert(!table.mounts[i].serves(b));
                }
                if j < i {
                    assert(!table.mounts[j].serves(a));
                }
            },
            (Some(_), None) => {
                let i = choose|i: int| 0 <= i < table.mounts.len() && #[trigger] table.mounts[i] == x;
                assert(!table.mounts[i].serves(b));
            },
            (None, Some(_)) => {
                let j = choose|j: int| 0 <= j < table.mounts.len() && #[trigger] table.mounts[j] == y;
                assert(!table.mounts[j].serves(a));
            },
            (None, None) => {},
        }
    }
}

/// In a table whose fallback is mounted at the root some link serves every absolute path.
pub proof fn law_absolute_path_is_covered(table: TableView, path: Seq<char>)
    requires
        table.wf(),
        table.fallback.viewfs_path == seq!['/'],
        path.len() > 0,
        path[0] == '/',
    ensures
        table.covers(path),
{
    lemma_first_serving(table.mounts, path);
    let root = seq!['/'];
    lemma_root_components();
    assert(components(path)[0] == root);
    assert(components(path).take(1) =~= seq![root]);
}

/// The root has one component.
pub(crate) proof fn lemma_root_components()
    ensures
        components(seq!['/']) == seq![seq!['/']],
{
    let root = seq!['/'];
    let empty = Seq::<char>::empty();
    assert(root =~= empty + root + empty);
    crate::path::lemma_names_concat(empty, empty);
    assert(components(root) =~= seq![root]);
}

/// What lies under a covered path is covered: some link serves every entry of a directory that
/// some link serves.
pub proof fn law_entry_of_covered_path_is_covered(
    table: TableView,
    path: Seq<char>,
    name: Seq<char>,
)
    requires
        table.rooted(),
        table.covers(path),
    ensures
        table.covers(join(path, name)),
{
    let child = join(path, name);
    if is_absolute(name) {
        law_absolute_path_is_covered(table, child);
    } else {
        let link = table.link_for(path);
        lemma_link_for_wf(table, path);
        lemma_has_component(link.viewfs_path);
        if path.len() == 0 {
            assert(crate::path::head(path).len() == 0);
            assert(components(path).len() == 0);
        }
        lemma_join(path, name);
        assert(components(child).take(link.depth() as int) =~= components(path).take(
            link.depth() as int,
        ));
        assert(link.serves(child));
        lemma_first_serving(table.mounts, path);
        lemma_first_serving(table.mounts, child);
        match first_serving(table.mounts, path) {
            Some(l) => {
                let i = choose|i: int| 0 <= i < table.mounts.len() && table.mounts[i] == l;
                assert(table.mounts[i].serves(child));
            },
            None => {},
        }
    }
}

} // verus!
