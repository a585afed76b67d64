//! Building the mount table of a `viewfs` file system from its configured links.
use vstd::prelude::*;

use crate::address::{parsed, service_of, NameService, NameServiceView, UrlParts, UrlView};
use crate::error::{invalid_argument, ErrorView, HdfsError, UrlError};
use crate::mount::{
    deepest_first, first_serving, law_most_specific_mount, lemma_first_serving, link_between,
    link_views, LinkView, MountLink, MountTable, TableView,
};
use crate::path::{component_count, components, law_leading_part, same_path};
use crate::text::{optional_text, text_eq};
use std::sync::Arc;

verus! {

/// `links` with `link` put behind every link that is mounted at least as deep.
pub open spec fn placed(links: Seq<LinkView>, link: LinkView) -> Seq<LinkView>
    decreases links.len(),
{
    if links.len() == 0 || links[0].depth() < link.depth() {
        seq![link] + links
    } else {
        seq![links[0]] + placed(links.drop_first(), link)
    }
}

/// The order in which links are tried: the deepest mount point first, and of two links that are
/// mounted equally deep the one that was configured later.
pub open spec fn mount_order(links: Seq<LinkView>) -> Seq<LinkView>
    decreases links.len(),
{
    if links.len() == 0 {
        links
    } else {
        placed(mount_order(links.drop_first()), links[0])
    }
}

proof fn lemma_placed_at(links: Seq<LinkView>, link: LinkView, at: int)
    requires
        0 <= at <= links.len(),
        at < links.len() ==> links[at].depth() < link.depth(),
        forall|i: int| 0 <= i < at ==> links[i].depth() >= link.depth(),
    ensures
        placed(links, link) == links.insert(at, link),
    decreases links.len(),
{
    if at > 0 {
        assert(links[0].depth() >= link.depth());
        assert forall|i: int| 0 <= i < at - 1 implies links.drop_first()[i].depth()
            >= link.depth() by {
            assert(links[i + 1].depth() >= link.depth());
        }
        lemma_placed_at(links.drop_first(), link, at - 1);
    }
    assert(placed(links, link) =~= links.insert(at, link));
}

/// The index at which `placed` puts a link.
pub(crate) proof fn lemma_placed(links: Seq<LinkView>, link: LinkView) -> (at: int)
    ensures
        0 <= at <= links.len(),
        placed(links, link) == links.insert(at, link),
        at < links.len() ==> links[at].depth() < link.depth(),
        forall|i: int| 0 <= i < at ==> links[i].depth() >= link.depth(),
    decreases links.len(),
{
    if links.len() == 0 || links[0].depth() < link.depth() {
        lemma_placed_at(links, link, 0);
        0
    } else {
        let rest = lemma_placed(links.drop_first(), link);
        assert forall|i: int| 0 <= i < rest + 1 implies links[i].depth() >= link.depth() by {
            if i > 0 {
                assert(links.drop_first()[i - 1].depth() >= link.depth());
            }
        }
        if rest + 1 < links.len() {
            assert(links.drop_first()[rest] == links[rest + 1]);
        }
        lemma_placed_at(links, link, rest + 1);
        rest + 1
    }
}

/// The mount order tries deeper mount points before shallower ones.
pub proof fn law_deepest_first(links: Seq<LinkView>)
    ensures
        deepest_first(mount_order(links)),
    decreases links.len(),
{
    if links.len() > 0 {
        let rest = mount_order(links.drop_first());
        law_deepest_first(links.drop_first());
        let at = lemma_placed(rest, links[0]);
        let all = mount_order(links);
        assert forall|i: int, j: int| 0 <= i <= j < all.len() implies all[i].depth()
            >= all[j].depth() by {
            let x = if i < at { i } else { i - 1 };
            let y = if j < at { j } else { j - 1 };
            if i == at && j > at {
                assert(rest[at].depth() >= rest[y].depth());
            }
        }
    }
}

/// In the mount order no mount point has fewer components than one after it.
pub proof fn law_more_components_come_first(links: Seq<LinkView>, i: int, j: int)
    requires
        0 <= i <= j < mount_order(links).len(),
    ensures
        components(mount_order(links)[i].viewfs_path).len() >= components(
            mount_order(links)[j].viewfs_path,
        ).len(),
{
    law_deepest_first(links);
    assert(mount_order(links)[i].depth() >= mount_order(links)[j].depth());
}

/// The mount order drops no link and makes up none.
pub proof fn law_mount_order_keeps_links(links: Seq<LinkView>)
    ensures
        mount_order(links).to_multiset() == links.to_multiset(),
        mount_order(links).len() == links.len(),
    decreases links.len(),
{
    if links.len() > 0 {
        let rest = mount_order(links.drop_first());
        law_mount_order_keeps_links(links.drop_first());
        let at = lemma_placed(rest, links[0]);
        vstd::seq_lib::to_multiset_insert(rest, at, links[0]);
        assert(links.drop_first().insert(0, links[0]) =~= links);
        vstd::seq_lib::to_multiset_insert(links.drop_first(), 0, links[0]);
    }
}

/// Of the links that are mounted equally deep, the later one is tried first.
pub proof fn law_later_link_first(links: Seq<LinkView>, depth: nat)
    ensures
        mount_order(links).filter(
            |l: LinkView| components(l.viewfs_path).len() == depth,
        ) == links.filter(|l: LinkView| components(l.viewfs_path).len() == depth).reverse(),
    decreases links.len(),
{
    let p = |l: LinkView| components(l.viewfs_path).len() == depth;
    if links.len() == 0 {
        reveal(Seq::filter);
        assert(links.filter(p) =~= Seq::<LinkView>::empty());
        assert(links.filter(p).reverse() =~= Seq::<LinkView>::empty());
    } else {
        let x = links[0];
        let others = links.drop_first();
        let rest = mount_order(others);
        law_later_link_first(others, depth);
        law_deepest_first(others);
        lemma_placed_filter(rest, x, depth, p);
        assert(links =~= seq![x] + others);
        Seq::filter_distributes_over_add(seq![x], others, p);
        lemma_filter_one(x, p);
        if p(x) {
            assert(links.filter(p).reverse() =~= others.filter(p).reverse().push(x));
        } else {
            assert(links.filter(p) =~= others.filter(p));
        }
    }
}

/// A link is placed behind all links that are mounted as deep.
proof fn lemma_placed_filter(
    rest: Seq<LinkView>,
    x: LinkView,
    depth: nat,
    p: spec_fn(LinkView) -> bool,
)
    requires
        deepest_first(rest),
        forall|l: LinkView| #[trigger] p(l) <==> l.depth() == depth,
    ensures
        placed(rest, x).filter(p) == if p(x) {
            rest.filter(p).push(x)
        } else {
            rest.filter(p)
        },
{
    let at = lemma_placed(rest, x);
    let front = rest.take(at);
    let back = rest.skip(at);
    assert(placed(rest, x) =~= front + seq![x] + back);
    assert(rest =~= front + back);
    Seq::filter_distributes_over_add(front + seq![x], back, p);
    Seq::filter_distributes_over_add(front, seq![x], p);
    Seq::filter_distributes_over_add(front, back, p);
    lemma_filter_one(x, p);
    if p(x) {
        assert forall|i: int| 0 <= i < back.len() implies !p(#[trigger] back[i]) by {
            assert(rest[at].depth() >= rest[at + i].depth());
        }
        lemma_filter_none(back, p);
        assert(placed(rest, x).filter(p) =~= front.filter(p).push(x));
        assert(rest.filter(p) =~= front.filter(p));
    } else {
        assert(placed(rest, x).filter(p) =~= rest.filter(p));
    }
}

/// No two links have the same mount point.
pub open spec fn distinct_mount_points(links: Seq<LinkView>) -> bool {
    forall|i: int, j: int|
        0 <= i < j < links.len() ==> !same_path(
            #[trigger] links[i].viewfs_path,
            #[trigger] links[j].viewfs_path,
        )
}

/// The order in which links with distinct mount points are configured does not matter: the same
/// link is chosen for every path.
pub proof fn law_configured_order_is_irrelevant(
    a: Seq<LinkView>,
    b: Seq<LinkView>,
    path: Seq<char>,
)
    requires
        a.to_multiset() == b.to_multiset(),
        distinct_mount_points(a),
    ensures
        first_serving(mount_order(a), path) == first_serving(mount_order(b), path),
{
    let x = mount_order(a);
    let y = mount_order(b);
    law_mount_order_keeps_links(a);
    law_mount_order_keeps_links(b);
    law_deepest_first(a);
    law_deepest_first(b);
    lemma_first_serving(x, path);
    lemma_first_serving(y, path);
    broadcast use vstd::seq_lib::group_to_multiset_ensures;

    assert forall|l: LinkView| x.contains(l) == y.contains(l) && x.contains(l) == a.contains(l) by {
        assert(x.to_multiset().count(l) == y.to_multiset().count(l));
        assert(x.to_multiset().count(l) == a.to_multiset().count(l));
    }
    match (first_serving(x, path), first_serving(y, path)) {
        (Some(p), Some(q)) => {
            let i = choose|i: int| 0 <= i < x.len() && x[i] == p;
            let j = choose|j: int| 0 <= j < y.len() && y[j] == q;
            assert(y.contains(p) && x.contains(q));
            let i2 = choose|k: int| 0 <= k < y.len() && y[k] == p;
            let j2 = choose|k: int| 0 <= k < x.len() && x[k] == q;
            law_leading_part(path, p.viewfs_path);
            law_leading_part(path, q.viewfs_path);
            law_most_specific_mount(TableView { mounts: x, fallback: p }, path, j2);
            law_most_specific_mount(TableView { mounts: y, fallback: p }, path, i2);
            assert(a.contains(p) && a.contains(q));
            let k = choose|k: int| 0 <= k < a.len() && a[k] == p;
            let l = choose|l: int| 0 <= l < a.len() && a[l] == q;
            if k < l {
                assert(!same_path(a[k].viewfs_path, a[l].viewfs_path));
            }
            if l < k {
                assert(!same_path(a[l].viewfs_path, a[k].viewfs_path));
            }
        },
        (Some(p), None) => {
            assert(x.contains(p));
            let k = choose|k: int| 0 <= k < y.len() && y[k] == p;
            assert(!y[k].serves(path));
        },
        (None, Some(q)) => {
            assert(y.contains(q));
            let k = choose|k: int| 0 <= k < x.len() && x[k] == q;
            assert(!x[k].serves(path));
        },
        (None, None) => {},
    }
}

proof fn lemma_filter_one(x: LinkView, p: spec_fn(LinkView) -> bool)
    ensures
        seq![x].filter(p) == if p(x) { seq![x] } else { Seq::<LinkView>::empty() },
{
    reveal_with_fuel(Seq::filter, 2);
    assert(seq![x].drop_last() =~= Seq::<LinkView>::empty());
    assert(seq![x].filter(p) =~= if p(x) { seq![x] } else { Seq::<LinkView>::empty() });
}

proof fn lemma_filter_none(s: Seq<LinkView>, p: spec_fn(LinkView) -> bool)
    requires
        forall|i: int| 0 <= i < s.len() ==> !p(#[trigger] s[i]),
    ensures
        s.filter(p) == Seq::<LinkView>::empty(),
    decreases s.len(),
{
    reveal(Seq::filter);
    if s.len() > 0 {
        assert forall|i: int| 0 <= i < s.drop_last().len() implies !p(#[trigger] s.drop_last()[i]) by {
            assert(s[i] == s.drop_last()[i]);
        }
        lemma_filter_none(s.drop_last(), p);
    }
}

/// Puts links into the order in which they are tried.
pub fn order_mounts(links: Vec<MountLink>) -> (res: Vec<MountLink>)
    ensures
        link_views(res@) == mount_order(link_views(links@)),
        deepest_first(link_views(res@)),
{
    let ghost all = link_views(links@);
    let mut links = links;
    let mut res: Vec<MountLink> = Vec::new();
    assert(all.skip(all.len() as int) =~= Seq::<LinkView>::empty());
    assert(link_views(res@) =~= Seq::<LinkView>::empty());
    while links.len() > 0
        invariant
            links@.len() <= all.len(),
            link_views(links@) == all.take(links@.len() as int),
            link_views(res@) == mount_order(all.skip(links@.len() as int)),
        decreases links@.len(),
    {
        let ghost before = link_views(links@);
        let ghost n = links@.len() - 1;
        assert(link_views(links@)[n] == links@[n]@);
        let link = links.pop().unwrap();
        assert(link_views(links@) =~= all.take(n));
        assert(all[n] == link@) by {
            assert(before[n] == all[n]);
        }
        let depth = component_count(&link.viewfs_path);
        let ghost sorted = link_views(res@);
        let mut at: usize = 0;
        while at < res.len() && component_count(&res[at].viewfs_path) >= depth
            invariant
                at <= res@.len(),
                sorted == link_views(res@),
                depth == link@.depth(),
                forall|i: int| 0 <= i < at ==> sorted[i].depth() >= depth,
            decreases res@.len() - at,
        {
            assert(sorted[at as int] == res@[at as int]@);
            at = at + 1;
        }
        proof {
            if at < res@.len() {
                assert(sorted[at as int] == res@[at as int]@);
            }
            lemma_placed_at(sorted, link@, at as int);
            assert(all.skip(n).drop_first() =~= all.skip(n + 1));
            assert(all.skip(n)[0] == link@);
        }
        res.insert(at, link);
        assert(link_views(res@) =~= sorted.insert(at as int, link@));
    }
    proof {
        assert(all.skip(0) =~= all);
        law_deepest_first(all);
    }
    res
}

/// What a mount table under construction says: the links in the order in which they were
/// configured, and the fallback, if one was seen.
#[verifier::ext_equal]
pub struct BuilderView {
    pub mounts: Seq<LinkView>,
    pub fallback: Option<LinkView>,
}

/// A mount table under construction.
#[derive(Debug)]
pub struct MountTableBuilder {
    pub mounts: Vec<MountLink>,
    pub fallback: Option<MountLink>,
}

impl View for MountTableBuilder {
    type V = BuilderView;

    open spec fn view(&self) -> BuilderView {
        BuilderView {
            mounts: link_views(self.mounts@),
            fallback: match self.fallback {
                Some(link) => Some(link@),
                None => None,
            },
        }
    }
}

/// The link that a configured link target makes at a mount point, or why it makes none: the
/// target must be a URL with a host and the scheme `hdfs`.
pub open spec fn link_to(viewfs_path: Seq<char>, url: Result<UrlView, UrlError>) -> Result<
    LinkView,
    ErrorView,
> {
    match url {
        Err(e) => Err(ErrorView::UrlParseError(e)),
        Ok(url) => match url.host {
            None => Err(ErrorView::InvalidArgument("URL must contain a host"@)),
            Some(host) => if url.scheme != "hdfs"@ {
                Err(ErrorView::InvalidArgument("Only hdfs mounts are supported for viewfs"@))
            } else {
                Ok(link_between(viewfs_path, url.path, service_of(host, url.port)))
            },
        },
    }
}

/// A table under construction after one more configured link. A link without a mount point is
/// the fallback, of which there may be only one.
pub open spec fn with_link(
    table: BuilderView,
    viewfs_path: Option<Seq<char>>,
    url: Result<UrlView, UrlError>,
) -> Result<BuilderView, ErrorView> {
    match viewfs_path {
        Some(prefix) => match link_to(prefix, url) {
            Err(e) => Err(e),
            Ok(link) => Ok(BuilderView { mounts: table.mounts.push(link), ..table }),
        },
        None => match link_to(seq!['/'], url) {
            Err(e) => Err(e),
            Ok(link) => if table.fallback is Some {
                Err(ErrorView::InvalidArgument("Multiple viewfs fallback links found"@))
            } else {
                Ok(BuilderView { fallback: Some(link), ..table })
            },
        },
    }
}

/// The finished table: it needs a fallback.
pub open spec fn finished(table: BuilderView) -> Result<TableView, ErrorView> {
    match table.fallback {
        Some(fallback) => Ok(TableView { mounts: mount_order(table.mounts), fallback }),
        None => Err(ErrorView::InvalidArgument("No viewfs fallback mount found"@)),
    }
}

/// What a table under construction says is what it holds.
pub proof fn law_builder_says_what_it_holds(table: MountTableBuilder)
    ensures
        table@.mounts.len() == table.mounts@.len(),
        forall|i: int| 0 <= i < table.mounts@.len() ==> table@.mounts[i] == (
        #[trigger] table.mounts@[i])@,
        table@.fallback is Some <==> table.fallback is Some,
        table.fallback is Some ==> table@.fallback == Some(table.fallback->0@),
{
}

/// A configured target is mounted exactly if it is a URL with a host and the scheme `hdfs`. The
/// mount point is the configured one, the place is the path of the URL, each of them the root
/// where it is empty, and the name service is the host of the URL: a single NameNode if the URL
/// has a port, else a name service.
pub proof fn law_target_is_mounted_as_configured(
    viewfs_path: Seq<char>,
    url: Result<UrlView, UrlError>,
)
    ensures
        match url {
            Err(e) => link_to(viewfs_path, url) == Err::<LinkView, ErrorView>(
                ErrorView::UrlParseError(e),
            ),
            Ok(u) => if u.host is None {
                link_to(viewfs_path, url) == Err::<LinkView, ErrorView>(
                    ErrorView::InvalidArgument("URL must contain a host"@),
                )
            } else if u.scheme != "hdfs"@ {
                link_to(viewfs_path, url) == Err::<LinkView, ErrorView>(
                    ErrorView::InvalidArgument("Only hdfs mounts are supported for viewfs"@),
                )
            } else {
                link_to(viewfs_path, url) matches Ok(link) && {
                    &&& viewfs_path.len() > 0 ==> link.viewfs_path == viewfs_path
                    &&& viewfs_path.len() == 0 ==> link.viewfs_path == seq!['/']
                    &&& u.path.len() > 0 ==> link.hdfs_path == u.path
                    &&& u.path.len() == 0 ==> link.hdfs_path == seq!['/']
                    &&& u.port matches Some(port) ==> link.protocol == (
                    NameServiceView::NameNode { host: u.host->0, port })
                    &&& u.port is None ==> link.protocol == (NameServiceView::Named {
                        name: u.host->0,
                    })
                }
            },
        },
{
}

/// A link with a mount point comes behind the links before it and changes nothing else; a link
/// without one becomes the fallback, or is refused if there is one.
pub proof fn law_link_is_added_as_configured(
    table: BuilderView,
    viewfs_path: Option<Seq<char>>,
    url: Result<UrlView, UrlError>,
)
    ensures
        viewfs_path matches Some(prefix) ==> match link_to(prefix, url) {
            Err(e) => with_link(table, viewfs_path, url) == Err::<BuilderView, ErrorView>(e),
            Ok(link) => with_link(table, viewfs_path, url) matches Ok(after) && after.mounts
                == table.mounts.push(link) && after.fallback == table.fallback,
        },
        viewfs_path is None ==> match link_to(seq!['/'], url) {
            Err(e) => with_link(table, viewfs_path, url) == Err::<BuilderView, ErrorView>(e),
            Ok(link) => if table.fallback is Some {
                with_link(table, viewfs_path, url) == Err::<BuilderView, ErrorView>(
                    ErrorView::InvalidArgument("Multiple viewfs fallback links found"@),
                )
            } else {
                with_link(table, viewfs_path, url) matches Ok(after) && after.mounts
                    == table.mounts && after.fallback == Some(link)
            },
        },
{
}

/// A table is finished exactly if it has a fallback, and then holds that fallback and all its
/// mounts.
pub proof fn law_finished_table_keeps_links(table: BuilderView)
    ensures
        table.fallback is None ==> finished(table) == Err::<TableView, ErrorView>(
            ErrorView::InvalidArgument("No viewfs fallback mount found"@),
        ),
        table.fallback matches Some(fallback) ==> (finished(table) matches Ok(done)
            && done.fallback == fallback && done.mounts.to_multiset()
            == table.mounts.to_multiset() && deepest_first(done.mounts)),
{
    law_mount_order_keeps_links(table.mounts);
    law_deepest_first(table.mounts);
}

impl BuilderView {
    /// No link has an empty path, and the fallback is mounted at the root.
    pub open spec fn wf(self) -> bool {
        &&& forall|i: int| 0 <= i < self.mounts.len() ==> (#[trigger] self.mounts[i]).wf()
        &&& self.fallback matches Some(link) ==> link.wf() && link.viewfs_path == seq!['/']
    }

    pub open spec fn empty() -> BuilderView {
        BuilderView { mounts: Seq::empty(), fallback: None }
    }
}

impl MountTableBuilder {
    /// A table without links.
    pub fn new() -> (res: Self)
        ensures
            res@ == BuilderView::empty(),
            res@.wf(),
    {
        let res = MountTableBuilder { mounts: Vec::new(), fallback: None };
        assert(res@ =~= BuilderView::empty());
        res
    }

    /// Adds a configured link, whose target was parsed to `url`.
    pub fn add(
        &mut self,
        viewfs_path: &Option<String>,
        url: Result<UrlParts, UrlError>,
    ) -> (res: Result<(), HdfsError>)
        requires
            old(self)@.wf(),
        ensures
            match with_link(old(self)@, optional_text(*viewfs_path), parsed(url)) {
                Ok(table) => res is Ok && final(self)@ == table,
                Err(e) => (res matches Err(error) && error@ == e) && *final(self) == *old(self),
            },
            final(self)@.wf(),
    {
        let url = match url {
            Ok(url) => url,
            Err(e) => {
                return Err(HdfsError::UrlParseError(e));
            },
        };
        let host = match url.host {
            Some(host) => host,
            None => {
                return Err(invalid_argument("URL must contain a host"));
            },
        };
        if !text_eq(&url.scheme, "hdfs") {
            return Err(invalid_argument("Only hdfs mounts are supported for viewfs"));
        }
        let protocol = Arc::new(NameService::new(&host, url.port));
        let ghost before = self@;
        match viewfs_path {
            Some(prefix) => {
                self.mounts.push(MountLink::new(prefix, &url.path, protocol));
                assert(self@.mounts =~= before.mounts.push(
                    link_between(prefix@, url.path@, protocol@),
                ));
            },
            None => {
                if self.fallback.is_some() {
                    return Err(invalid_argument("Multiple viewfs fallback links found"));
                }
                proof {
                    reveal_strlit("/");
                    assert("/"@ =~= seq!['/']);
                }
                self.fallback = Some(MountLink::new("/", &url.path, protocol));
            },
        }
        Ok(())
    }

    /// Finishes the table.
    pub fn finish(self) -> (res: Result<MountTable, HdfsError>)
        requires
            self@.wf(),
        ensures
            match finished(self@) {
                Ok(table) => res matches Ok(t) && t@ == table && table.ordered(),
                Err(e) => res matches Err(error) && error@ == e,
            },
    {
        match self.fallback {
            Some(fallback) => {
                let ghost links = link_views(self.mounts@);
                let mounts = order_mounts(self.mounts);
                proof {
                    lemma_mount_order_wf(links);
                }
                Ok(MountTable { mounts, fallback })
            },
            None => Err(invalid_argument("No viewfs fallback mount found")),
        }
    }
}

proof fn lemma_mount_order_wf(links: Seq<LinkView>)
    requires
        forall|i: int| 0 <= i < links.len() ==> (#[trigger] links[i]).wf(),
    ensures
        forall|i: int| 0 <= i < mount_order(links).len() ==> (#[trigger] mount_order(links)[i]).wf(),
    decreases links.len(),
{
    if links.len() > 0 {
        let rest = links.drop_first();
        assert forall|i: int| 0 <= i < rest.len() implies (#[trigger] rest[i]).wf() by {
            assert(links[i + 1].wf());
        }
        lemma_mount_order_wf(rest);
        let at = lemma_placed(mount_order(rest), links[0]);
        assert forall|i: int| 0 <= i < mount_order(links).len() implies (#[trigger] mount_order(
            links,
        )[i]).wf() by {
            if i < at {
                assert(mount_order(rest)[i].wf());
            } else if i > at {
                assert(mount_order(rest)[i - 1].wf());
            } else {
                assert(links[0].wf());
            }
        }
    }
}

} // verus!
