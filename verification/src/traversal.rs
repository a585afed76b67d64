//! What a walk hands out as a whole: every entry of the tree once, in order, each directory
//! before what it holds.
use vstd::prelude::*;

use crate::error::ErrorView;
use crate::listing::{kept, DirView, ItemView, StepView, WalkView};
use crate::mount::TableView;
use crate::rpc::{CallView, PageReply, PageView, RequestView};
use crate::status::{status_of, EntryView, FileType, StatusView};

verus! {

/// How the name services answer requests for pages.
pub type Server = spec_fn(CallView) -> PageReply;

/// An entry and, if it is a directory, the pages in which its entries are listed, and the error
/// that comes in place of a further page, if any.
pub struct Node {
    pub entry: EntryView,
    pub pages: Seq<Seq<Node>>,
    pub failure: Option<ErrorView>,
}

/// What a walk hands out for an entry, or for a page that could not be fetched.
pub type Found = Result<StatusView, ErrorView>;

/// The entries of a page of nodes.
pub open spec fn entries_of(nodes: Seq<Node>) -> Seq<EntryView> {
    nodes.map_values(|n: Node| n.entry)
}

/// One whole step of a walk: it goes on until it has an item, and `server` answers what it asks
/// for.
pub open spec fn pull(server: Server, walk: WalkView) -> (WalkView, ItemView)
    decreases walk.iters.len(),
{
    if walk.iters.len() == 0 {
        (walk, None)
    } else {
        let dir = walk.iters.last();
        if dir.wants_page() {
            match server(dir.page_request()) {
                Ok(Some(page)) => match dir.with_page(page).front() {
                    Some(status) => (
                        walk.with_last(dir.with_page(page).rest()).entering(status),
                        Some(Ok(status)),
                    ),
                    None => pull(server, walk.without_last()),
                },
                Ok(None) => (
                    walk.with_last(dir.stopped()),
                    Some(Err(ErrorView::FileNotFound(dir.path))),
                ),
                Err(e) => (walk.with_last(dir.stopped()), Some(Err(e))),
            }
        } else {
            match dir.front() {
                Some(status) => (
                    walk.with_last(dir.rest()).entering(status),
                    Some(Ok(status)),
                ),
                None => pull(server, walk.without_last()),
            }
        }
    }
}

/// The first `n` items of a walk.
pub open spec fn pulled(server: Server, walk: WalkView, n: nat) -> Seq<ItemView>
    decreases n,
{
    if n == 0 {
        Seq::empty()
    } else {
        seq![pull(server, walk).1] + pulled(server, pull(server, walk).0, (n - 1) as nat)
    }
}

/// The step that follows the answer to a request is the one that the whole step makes: whoever
/// answers each request and goes on gets the item of the whole step.
pub proof fn law_steps_make_whole_step(server: Server, walk: WalkView)
    ensures
        match walk.advance() {
            (after, StepView::Item(item)) => pull(server, walk) == (after, item),
            (after, StepView::Fetch(call)) => after.awaits_page() && call
                == after.iters.last().page_request() && match after.resumed(server(call)) {
                (then_after, StepView::Item(item)) => pull(server, walk) == (then_after, item),
                (then_after, StepView::Fetch(_)) => pull(server, walk) == pull(
                    server,
                    then_after,
                ) && then_after.iters.len() < after.iters.len(),
            },
        },
    decreases walk.iters.len(),
{
    if walk.iters.len() > 0 {
        let dir = walk.iters.last();
        if dir.wants_page() {
            match server(dir.page_request()) {
                Ok(Some(page)) => {
                    if dir.with_page(page).front() is None {
                        lemma_advance_then_pull(server, walk.without_last());
                    }
                },
                _ => {},
            }
        } else if dir.front() is None {
            law_steps_make_whole_step(server, walk.without_last());
        }
    }
}

/// Going on without an answer does not change the whole step.
proof fn lemma_advance_then_pull(server: Server, walk: WalkView)
    ensures
        match walk.advance() {
            (after, StepView::Item(item)) => pull(server, walk) == (after, item),
            (after, StepView::Fetch(_)) => pull(server, walk) == pull(server, after)
                && after.iters.len() <= walk.iters.len(),
        },
    decreases walk.iters.len(),
{
    if walk.iters.len() > 0 {
        let dir = walk.iters.last();
        if !dir.wants_page() && dir.front() is None {
            lemma_advance_then_pull(server, walk.without_last());
        }
    }
}

/// A directory whose page could not be fetched is left: the walk reports the error once and goes
/// on with the directory around it.
pub proof fn law_error_ends_directory(walk: WalkView, reply: PageReply)
    requires
        walk.awaits_page(),
        walk.iters.last().page_error(reply) is Some,
    ensures
        walk.resumed(reply).1 == StepView::Item(
            Some(Err(walk.iters.last().page_error(reply)->0)),
        ),
        walk.resumed(reply).0.advance() == walk.without_last().advance(),
{
    let after = walk.resumed(reply).0;
    assert(after.iters.last() == walk.iters.last().stopped());
    assert(after.without_last() =~= walk.without_last());
}

/// The end of a walk is final: a walk that has ended is in no directory any more, so it asks for
/// nothing and ends again.
pub proof fn law_end_is_final(walk: WalkView)
    ensures
        walk.advance().1 == StepView::Item(None) ==> {
            &&& walk.advance().0.iters.len() == 0
            &&& walk.advance().0.advance() == walk.advance()
        },
        forall|reply: PageReply|
            walk.iters.len() > 0 && (#[trigger] walk.resumed(reply)).1 == StepView::Item(None) ==> {
                &&& walk.resumed(reply).0.iters.len() == 0
                &&& walk.resumed(reply).0.advance() == walk.resumed(reply)
            },
    decreases walk.iters.len(),
{
    if walk.iters.len() > 0 {
        law_end_is_final(walk.without_last());
    }
}

/// A listing keeps all entries of a page, or all but the directories, in order.
pub proof fn law_listing_keeps_entries(entries: Seq<EntryView>)
    ensures
        kept(entries, false) == entries,
        kept(entries, true) == entries.filter(|e: EntryView| e.file_type != FileType::IsDir),
{
    lemma_kept_all(entries);
    lemma_kept_files(entries);
}

proof fn lemma_kept_files(entries: Seq<EntryView>)
    ensures
        kept(entries, true) == entries.filter(|e: EntryView| e.file_type != FileType::IsDir),
    decreases entries.len(),
{
    let p = |e: EntryView| e.file_type != FileType::IsDir;
    reveal(Seq::filter);
    if entries.len() > 0 {
        let init = entries.drop_last();
        lemma_kept_files(init);
        let last = entries.last();
        assert(kept(entries, true) == if last.file_type != FileType::IsDir {
            kept(init, true).push(last)
        } else {
            kept(init, true)
        });
        assert(entries.filter(p) == if p(last) {
            init.filter(p).push(last)
        } else {
            init.filter(p)
        });
    }
}

/// The listing of a directory begins with the request for its first page, at the name service
/// and under the path that the directory resolves to.
pub proof fn law_listing_begins_with_request(table: TableView, path: Seq<char>, files_only: bool)
    ensures
        ({
            let dir = DirView::fresh(table, path, files_only);
            &&& dir.wants_page()
            &&& dir.path == path
            &&& dir.files_only == files_only
            &&& dir.page_request() == (CallView {
                protocol: table.link_for(path).protocol,
                request: RequestView::GetListing {
                    src: table.target(path),
                    start_after: Seq::empty(),
                    need_location: false,
                },
            })
        }),
{
}

/// A listing hands out the entries that it has fetched, the first one first, each with its status
/// in the directory, and asks for a page exactly if it has none left and more are to come. The
/// request starts after the last entry that was fetched.
pub proof fn law_listing_hands_out_then_asks(dir: DirView)
    ensures
        dir.wants_page() <==> dir.pending.len() == 0 && dir.remaining > 0,
        dir.page_request() == (CallView {
            protocol: dir.link.protocol,
            request: RequestView::GetListing {
                src: dir.resolved_path,
                start_after: dir.last_seen,
                need_location: false,
            },
        }),
        dir.pending.len() == 0 ==> dir.front() is None && dir.rest() == dir,
        dir.pending.len() > 0 ==> dir.front() == Some(status_of(dir.pending[0], dir.path))
            && dir.rest() == (DirView { pending: dir.pending.skip(1), ..dir }),
{
    assert(dir.pending.drop_first() =~= dir.pending.skip(1));
}

/// A page is taken in as it comes: its entries are handed out next, and the next request starts
/// after its last one. A directory that does not exist is reported under the path that the caller
/// knows; an error is passed on; after either, nothing more is asked for.
pub proof fn law_page_is_taken_in(dir: DirView, page: PageView, e: ErrorView)
    ensures
        dir.with_page(page) == (DirView {
            pending: if dir.files_only {
                page.entries.filter(|e: EntryView| e.file_type != FileType::IsDir)
            } else {
                page.entries
            },
            remaining: page.remaining,
            last_seen: if page.entries.len() > 0 {
                page.entries.last().path
            } else {
                Seq::empty()
            },
            ..dir
        }),
        dir.page_error(Ok(Some(page))) is None,
        dir.page_error(Ok(None)) == Some(ErrorView::FileNotFound(dir.path)),
        dir.page_error(Err(e)) == Some(e),
        dir.stopped() == (DirView { remaining: 0, ..dir }),
{
    law_listing_keeps_entries(page.entries);
}

/// A walk begins with the request for the first page of its directory.
pub proof fn law_walk_begins_with_request(table: TableView, path: Seq<char>, recursive: bool)
    ensures
        ({
            let walk = WalkView::fresh(table, path, recursive);
            &&& walk.table == table
            &&& walk.recursive == recursive
            &&& walk.advance() == (
                walk,
                StepView::Fetch(
                    CallView {
                        protocol: table.link_for(path).protocol,
                        request: RequestView::GetListing {
                            src: table.target(path),
                            start_after: Seq::empty(),
                            need_location: false,
                        },
                    },
                ),
            )
        }),
{
}

/// A walk hands out the next entry that was fetched of the directory that it is in. Right after a
/// directory, a recursive walk asks for that directory's first page; else it stays where it is.
pub proof fn law_walk_hands_out_next_entry(walk: WalkView)
    requires
        walk.iters.len() > 0,
        walk.iters.last().pending.len() > 0,
    ensures
        ({
            let dir = walk.iters.last();
            let status = status_of(dir.pending[0], dir.path);
            let stayed = WalkView {
                iters: walk.iters.drop_last().push(
                    DirView { pending: dir.pending.skip(1), ..dir },
                ),
                ..walk
            };
            let (after, step) = walk.advance();
            &&& step == StepView::Item(Some(Ok(status)))
            &&& !(dir.pending[0].file_type == FileType::IsDir && walk.recursive) ==> after == stayed
            &&& dir.pending[0].file_type == FileType::IsDir && walk.recursive ==> {
                &&& after.table == walk.table && after.recursive
                &&& after.iters.drop_last() == stayed.iters
                &&& after.advance() == (
                    after,
                    StepView::Fetch(
                        CallView {
                            protocol: walk.table.link_for(status.path).protocol,
                            request: RequestView::GetListing {
                                src: walk.table.target(status.path),
                                start_after: Seq::empty(),
                                need_location: false,
                            },
                        },
                    ),
                )
            }
        }),
{
    let dir = walk.iters.last();
    law_listing_hands_out_then_asks(dir);
    let status = status_of(dir.pending[0], dir.path);
    let after = walk.advance().0;
    let stayed = walk.with_last(dir.rest());
    if status.isdir && walk.recursive {
        assert(after.iters.drop_last() =~= stayed.iters);
    }
}

/// A walk that has handed out all of a directory goes on with the directory around it, as if the
/// inner one had never been there.
pub proof fn law_walk_leaves_finished_directory(walk: WalkView)
    requires
        walk.iters.len() > 0,
        walk.iters.last().pending.len() == 0,
        walk.iters.last().remaining == 0,
    ensures
        walk.advance() == (WalkView { iters: walk.iters.drop_last(), ..walk }).advance(),
{
}

/// A walk that has asked for a page goes on with what the page holds: its step is the one that it
/// would make had the entries been there before, and it leaves the directory if there are none.
pub proof fn law_walk_goes_on_with_page(walk: WalkView, page: PageView)
    requires
        walk.iters.len() > 0,
        !walk.iters.last().files_only,
    ensures
        page.entries.len() == 0 ==> walk.resumed(Ok(Some(page))) == (WalkView {
            iters: walk.iters.drop_last(),
            ..walk
        }).advance(),
        page.entries.len() > 0 ==> walk.resumed(Ok(Some(page))) == (WalkView {
            iters: walk.iters.drop_last().push(
                DirView {
                    pending: page.entries,
                    remaining: page.remaining,
                    last_seen: page.entries.last().path,
                    ..walk.iters.last()
                },
            ),
            ..walk
        }).advance(),
{
    let dir = walk.iters.last();
    lemma_kept_all(page.entries);
    let filled = walk.with_last(dir.with_page(page));
    assert(filled.iters.last() == dir.with_page(page));
    assert(filled.iters.drop_last() =~= walk.iters.drop_last());
    if page.entries.len() > 0 {
        assert(filled.with_last(dir.with_page(page).rest()) =~= walk.with_last(
            dir.with_page(page).rest(),
        ));
    }
}

/// A page that could not be fetched is reported at once: a directory that does not exist under
/// the path that the caller knows, any other error as it came. No more is asked of that directory.
pub proof fn law_walk_reports_error(walk: WalkView, e: ErrorView)
    requires
        walk.iters.len() > 0,
    ensures
        ({
            let stopped = WalkView {
                iters: walk.iters.drop_last().push(
                    DirView { remaining: 0, ..walk.iters.last() },
                ),
                ..walk
            };
            &&& walk.resumed(Err(e)) == (stopped, StepView::Item(Some(Err(e))))
            &&& walk.resumed(Ok(None)) == (
                stopped,
                StepView::Item(Some(Err(ErrorView::FileNotFound(walk.iters.last().path)))),
            )
        }),
{
}

/// What the listing of one directory asks for and hands out, in order.
#[verifier::ext_equal]
pub struct Listed {
    pub asked: Seq<CallView>,
    pub found: Seq<StatusView>,
}

impl Listed {
    /// Nothing is asked for and nothing is handed out.
    pub open spec fn nothing() -> Listed {
        Listed { asked: Seq::empty(), found: Seq::empty() }
    }

    /// A request comes first.
    pub open spec fn after_request(self, call: CallView) -> Listed {
        Listed { asked: seq![call] + self.asked, ..self }
    }

    /// An entry comes first.
    pub open spec fn after_entry(self, status: StatusView) -> Listed {
        Listed { found: seq![status] + self.found, ..self }
    }
}

/// The listing of one directory up to its end, with `pages` as the answers to its requests, one
/// after the other. A request beyond them is not answered.
pub open spec fn listed(dir: DirView, pages: Seq<PageView>) -> Listed
    decreases pages.len(), dir.pending.len(),
{
    if dir.wants_page() {
        if pages.len() == 0 {
            Listed::nothing().after_request(dir.page_request())
        } else {
            let full = dir.with_page(pages[0]);
            let rest = match full.front() {
                Some(status) => listed(full.rest(), pages.drop_first()).after_entry(status),
                None => Listed::nothing(),
            };
            rest.after_request(dir.page_request())
        }
    } else {
        match dir.front() {
            Some(status) => listed(dir.rest(), pages).after_entry(status),
            None => Listed::nothing(),
        }
    }
}

/// The statuses of entries of the directory `path`.
pub open spec fn statuses(entries: Seq<EntryView>, path: Seq<char>) -> Seq<StatusView> {
    entries.map_values(|e: EntryView| status_of(e, path))
}

/// The entries of all pages that a listing keeps, in order.
pub open spec fn all_kept(pages: Seq<PageView>, files_only: bool) -> Seq<EntryView>
    decreases pages.len(),
{
    if pages.len() == 0 {
        Seq::empty()
    } else {
        kept(pages[0].entries, files_only) + all_kept(pages.drop_first(), files_only)
    }
}

/// The pages of a directory: every page but the last says that entries come after it and has one
/// that the listing keeps, and the last one says that none comes after it.
pub open spec fn whole_listing(pages: Seq<PageView>, files_only: bool) -> bool {
    &&& pages.len() > 0
    &&& pages.last().remaining == 0
    &&& forall|i: int|
        0 <= i < pages.len() - 1 ==> (#[trigger] pages[i]).remaining > 0 && kept(
            pages[i].entries,
            files_only,
        ).len() > 0
}

/// The request for page number `i`, which starts after the last entry of the page before.
pub open spec fn request_for(dir: DirView, pages: Seq<PageView>, i: int) -> CallView {
    CallView {
        protocol: dir.link.protocol,
        request: RequestView::GetListing {
            src: dir.resolved_path,
            start_after: if i == 0 {
                dir.last_seen
            } else {
                pages[i - 1].entries.last().path
            },
            need_location: false,
        },
    }
}

/// The listing of one directory hands out all entries of its pages that it keeps, in order, with
/// one request for each page; each request starts after the last entry of the page before, and
/// the first one at the beginning.
pub proof fn law_directory_is_listed_page_by_page(
    table: TableView,
    path: Seq<char>,
    files_only: bool,
    pages: Seq<PageView>,
)
    requires
        whole_listing(pages, files_only),
    ensures
        ({
            let dir = DirView::fresh(table, path, files_only);
            let run = listed(dir, pages);
            &&& run.found == statuses(all_kept(pages, files_only), path)
            &&& !files_only ==> run.found == pages.map_values(
                |p: PageView| p.entries,
            ).flatten().map_values(|e: EntryView| status_of(e, path))
            &&& run.asked.len() == pages.len()
            &&& forall|i: int|
                0 <= i < pages.len() ==> #[trigger] run.asked[i] == request_for(dir, pages, i)
            &&& request_for(dir, pages, 0) == (CallView {
                protocol: table.link_for(path).protocol,
                request: RequestView::GetListing {
                    src: table.target(path),
                    start_after: Seq::empty(),
                    need_location: false,
                },
            })
        }),
{
    lemma_listed(DirView::fresh(table, path, files_only), pages);
    lemma_all_kept(pages);
}

/// All entries of all pages are kept where directories are.
proof fn lemma_all_kept(pages: Seq<PageView>)
    ensures
        all_kept(pages, false) == pages.map_values(|p: PageView| p.entries).flatten(),
    decreases pages.len(),
{
    let lists = pages.map_values(|p: PageView| p.entries);
    if pages.len() > 0 {
        lemma_all_kept(pages.drop_first());
        lemma_kept_all(pages[0].entries);
        assert(lists.drop_first() =~= pages.drop_first().map_values(|p: PageView| p.entries));
        assert(lists.first() == pages[0].entries);
    }
}

/// The listing of a directory that has handed out everything that it has fetched.
proof fn lemma_listed(dir: DirView, pages: Seq<PageView>)
    requires
        dir.wants_page(),
        whole_listing(pages, dir.files_only),
    ensures
        listed(dir, pages).found == statuses(all_kept(pages, dir.files_only), dir.path),
        listed(dir, pages).asked.len() == pages.len(),
        forall|i: int|
            0 <= i < pages.len() ==> #[trigger] listed(dir, pages).asked[i] == request_for(
                dir,
                pages,
                i,
            ),
    decreases pages.len(), 1int,
{
    let page = pages[0];
    let full = dir.with_page(page);
    let later = pages.drop_first();
    let run = listed(dir, pages);
    let rest = match full.front() {
        Some(status) => listed(full.rest(), later).after_entry(status),
        None => Listed::nothing(),
    };
    assert(run == rest.after_request(dir.page_request()));
    if pages.len() == 1 {
        assert(all_kept(later, dir.files_only) =~= Seq::<EntryView>::empty());
        assert(all_kept(pages, dir.files_only) =~= full.pending);
    } else {
        assert(pages[0].remaining > 0);
        assert(page.entries.len() > 0) by {
            reveal(Seq::filter);
        }
    }
    if full.pending.len() > 0 {
        assert(!full.wants_page());
        assert(listed(full, later) == rest);
    } else {
        assert(listed(full, later) == Listed::nothing());
    }
    lemma_listed_rest(full, later);
    assert(run.found =~= statuses(all_kept(pages, dir.files_only), dir.path)) by {
        assert(statuses(full.pending, dir.path) + statuses(
            all_kept(later, dir.files_only),
            dir.path,
        ) =~= statuses(all_kept(pages, dir.files_only), dir.path));
    }
    assert forall|i: int| 0 <= i < pages.len() implies #[trigger] run.asked[i] == request_for(
        dir,
        pages,
        i,
    ) by {
        if i > 0 {
            assert(run.asked[i] == rest.asked[i - 1]);
            assert(rest.asked[i - 1] == request_for(full, later, i - 1));
            if i > 1 {
                assert(later[i - 2] == pages[i - 1]);
            }
        }
    }
}

/// The listing of a directory whose last page was fetched, or which has the pages `pages` left.
proof fn lemma_listed_rest(dir: DirView, pages: Seq<PageView>)
    requires
        dir.remaining > 0 <==> pages.len() > 0,
        pages.len() > 0 ==> whole_listing(pages, dir.files_only),
    ensures
        listed(dir, pages).found == statuses(dir.pending, dir.path) + statuses(
            all_kept(pages, dir.files_only),
            dir.path,
        ),
        listed(dir, pages).asked.len() == pages.len(),
        forall|i: int|
            0 <= i < pages.len() ==> #[trigger] listed(dir, pages).asked[i] == request_for(
                dir,
                pages,
                i,
            ),
    decreases pages.len(), 2 + dir.pending.len(),
{
    let all = statuses(dir.pending, dir.path) + statuses(
        all_kept(pages, dir.files_only),
        dir.path,
    );
    if dir.wants_page() {
        lemma_listed(dir, pages);
        assert(all =~= statuses(all_kept(pages, dir.files_only), dir.path));
    } else if dir.pending.len() > 0 {
        lemma_listed_rest(dir.rest(), pages);
        let status = status_of(dir.pending[0], dir.path);
        assert(statuses(dir.pending, dir.path) =~= seq![status] + statuses(
            dir.rest().pending,
            dir.path,
        ));
        assert(listed(dir, pages).found =~= all);
        assert forall|i: int| 0 <= i < pages.len() implies #[trigger] listed(
            dir,
            pages,
        ).asked[i] == request_for(dir, pages, i) by {
            assert(listed(dir.rest(), pages).asked[i] == request_for(dir.rest(), pages, i));
        }
    } else {
        assert(all =~= Seq::<StatusView>::empty());
    }
}

/// The entry is listed, with everything below it if the walk goes there.
pub open spec fn node_served(
    server: Server,
    table: TableView,
    recursive: bool,
    path: Seq<char>,
    node: Node,
) -> bool
    decreases node,
{
    let status = status_of(node.entry, path);
    status.isdir && recursive ==> pages_served(
        server,
        table,
        recursive,
        DirView::fresh(table, status.path, false),
        node.pages,
        node.failure,
    )
}

/// All entries are listed, each with everything below it if the walk goes there.
pub open spec fn nodes_served(
    server: Server,
    table: TableView,
    recursive: bool,
    path: Seq<char>,
    nodes: Seq<Node>,
) -> bool
    decreases nodes,
{
    if nodes.len() == 0 {
        true
    } else {
        &&& node_served(server, table, recursive, path, nodes[0])
        &&& nodes_served(server, table, recursive, path, nodes.drop_first())
    }
}

/// `server` lists the rest of a directory in `pages`, one for each request, and fails the request
/// after them if there is a `failure`. A page says that no entry comes after it exactly if no
/// request comes after it, and a page without entries is the last one.
pub open spec fn pages_served(
    server: Server,
    table: TableView,
    recursive: bool,
    dir: DirView,
    pages: Seq<Seq<Node>>,
    failure: Option<ErrorView>,
) -> bool
    decreases pages,
{
    if pages.len() == 0 {
        match failure {
            None => dir.remaining == 0,
            Some(e) => dir.remaining > 0 && dir.page_error(server(dir.page_request())) == Some(e),
        }
    } else {
        &&& dir.remaining > 0
        &&& server(dir.page_request()) matches Ok(Some(page))
        &&& page.entries == entries_of(pages[0])
        &&& (page.remaining > 0 <==> pages.len() > 1 || failure is Some)
        &&& (pages[0].len() == 0 ==> pages.len() == 1 && failure is None)
        &&& nodes_served(server, table, recursive, dir.path, pages[0])
        &&& pages_served(server, table, recursive, dir.with_page(page), pages.drop_first(), failure)
    }
}

/// What is found of an entry and, if the walk goes there, of everything below it.
pub open spec fn node_items(recursive: bool, path: Seq<char>, node: Node) -> Seq<Found>
    decreases node,
{
    let status = status_of(node.entry, path);
    if status.isdir && recursive {
        seq![Ok(status)] + pages_items(recursive, status.path, node.pages, node.failure)
    } else {
        seq![Ok(status)]
    }
}

/// What is found of entries in order, what is below an entry right behind it.
pub open spec fn nodes_items(recursive: bool, path: Seq<char>, nodes: Seq<Node>) -> Seq<Found>
    decreases nodes,
{
    if nodes.len() == 0 {
        Seq::empty()
    } else {
        node_items(recursive, path, nodes[0]) + nodes_items(recursive, path, nodes.drop_first())
    }
}

/// What is found in all pages of a directory, in order, and the failure behind them.
pub open spec fn pages_items(
    recursive: bool,
    path: Seq<char>,
    pages: Seq<Seq<Node>>,
    failure: Option<ErrorView>,
) -> Seq<Found>
    decreases pages,
{
    if pages.len() == 0 {
        match failure {
            None => Seq::empty(),
            Some(e) => seq![Err(e)],
        }
    } else {
        nodes_items(recursive, path, pages[0]) + pages_items(
            recursive,
            path,
            pages.drop_first(),
            failure,
        )
    }
}

/// What is left of a directory: entries that were fetched, and pages that were not.
pub struct Rest {
    pub nodes: Seq<Node>,
    pub pages: Seq<Seq<Node>>,
    pub failure: Option<ErrorView>,
}

/// The listing of a directory has exactly `rest` before it.
pub open spec fn dir_matches(
    server: Server,
    table: TableView,
    recursive: bool,
    dir: DirView,
    rest: Rest,
) -> bool {
    &&& !dir.files_only
    &&& dir.pending == entries_of(rest.nodes)
    &&& nodes_served(server, table, recursive, dir.path, rest.nodes)
    &&& pages_served(server, table, recursive, dir, rest.pages, rest.failure)
}

/// Each directory that the walk is in has exactly its rest before it.
pub open spec fn walk_matches(server: Server, walk: WalkView, rests: Seq<Rest>) -> bool {
    &&& walk.iters.len() == rests.len()
    &&& forall|i: int|
        0 <= i < rests.len() ==> dir_matches(
            server,
            walk.table,
            walk.recursive,
            #[trigger] walk.iters[i],
            #[trigger] rests[i],
        )
}

/// What is found in the rest of a directory.
pub open spec fn dir_items(recursive: bool, dir: DirView, rest: Rest) -> Seq<Found> {
    nodes_items(recursive, dir.path, rest.nodes) + pages_items(
        recursive,
        dir.path,
        rest.pages,
        rest.failure,
    )
}

/// What the walk has still to hand out: the rest of the innermost directory first.
pub open spec fn outstanding(walk: WalkView, rests: Seq<Rest>) -> Seq<Found>
    decreases rests.len(),
{
    if rests.len() == 0 {
        Seq::empty()
    } else {
        dir_items(walk.recursive, walk.iters.last(), rests.last()) + outstanding(
            walk.without_last(),
            rests.drop_last(),
        )
    }
}

proof fn lemma_kept_all(entries: Seq<EntryView>)
    ensures
        kept(entries, false) == entries,
    decreases entries.len(),
{
    reveal(Seq::filter);
    if entries.len() > 0 {
        lemma_kept_all(entries.drop_last());
        assert(kept(entries, false) =~= entries.drop_last().push(entries.last()));
    }
    assert(kept(entries, false) =~= entries);
}

/// The rest of a directory after the page that its listing wants, if it wants one that can be
/// fetched.
proof fn lemma_fill(
    server: Server,
    table: TableView,
    recursive: bool,
    dir: DirView,
    rest: Rest,
) -> (out: (DirView, Rest))
    requires
        dir_matches(server, table, recursive, dir, rest),
        dir.wants_page() ==> rest.pages.len() > 0,
    ensures
        dir_matches(server, table, recursive, out.0, out.1),
        out.0 == if dir.wants_page() {
            dir.with_page(server(dir.page_request())->Ok_0->Some_0)
        } else {
            dir
        },
        dir.wants_page() ==> server(dir.page_request()) matches Ok(Some(_)),
        dir_items(recursive, out.0, out.1) == dir_items(recursive, dir, rest),
        out.1.nodes.len() == 0 ==> out.1.pages.len() == 0 && out.1.failure is None,
{
    assert(entries_of(rest.nodes).len() == rest.nodes.len());
    if dir.wants_page() {
        let page = server(dir.page_request())->Ok_0->Some_0;
        let filled = dir.with_page(page);
        let now = Rest { nodes: rest.pages[0], pages: rest.pages.drop_first(), ..rest };
        lemma_kept_all(page.entries);
        assert(nodes_items(recursive, dir.path, rest.nodes) =~= Seq::<Found>::empty());
        assert(dir_items(recursive, filled, now) =~= dir_items(recursive, dir, rest));
        (filled, now)
    } else {
        (dir, rest)
    }
}

/// The directories around the innermost one have their rests before them too.
proof fn lemma_outer(server: Server, walk: WalkView, rests: Seq<Rest>)
    requires
        walk_matches(server, walk, rests),
        rests.len() > 0,
    ensures
        walk_matches(server, walk.without_last(), rests.drop_last()),
        dir_matches(server, walk.table, walk.recursive, walk.iters.last(), rests.last()),
{
    let outer = walk.without_last();
    let outer_rests = rests.drop_last();
    assert(dir_matches(
        server,
        walk.table,
        walk.recursive,
        walk.iters[rests.len() - 1],
        rests[rests.len() - 1],
    ));
    assert forall|i: int| 0 <= i < outer_rests.len() implies dir_matches(
        server,
        outer.table,
        outer.recursive,
        #[trigger] outer.iters[i],
        #[trigger] outer_rests[i],
    ) by {
        assert(dir_matches(server, walk.table, walk.recursive, walk.iters[i], rests[i]));
    }
}

/// A walk with one more directory, which has `rest` before it.
proof fn lemma_inner(server: Server, walk: WalkView, rests: Seq<Rest>, dir: DirView, rest: Rest)
    requires
        walk_matches(server, walk, rests),
        dir_matches(server, walk.table, walk.recursive, dir, rest),
    ensures
        ({
            let inner = WalkView { iters: walk.iters.push(dir), ..walk };
            &&& walk_matches(server, inner, rests.push(rest))
            &&& outstanding(inner, rests.push(rest)) == dir_items(walk.recursive, dir, rest)
                + outstanding(walk, rests)
        }),
{
    let inner = WalkView { iters: walk.iters.push(dir), ..walk };
    let all = rests.push(rest);
    assert forall|i: int| 0 <= i < all.len() implies dir_matches(
        server,
        inner.table,
        inner.recursive,
        #[trigger] inner.iters[i],
        #[trigger] all[i],
    ) by {
        if i < rests.len() {
            assert(dir_matches(server, walk.table, walk.recursive, walk.iters[i], rests[i]));
        }
    }
    assert(inner.without_last() =~= walk);
    assert(all.drop_last() =~= rests);
}

/// The step of a walk whose innermost directory fails.
proof fn lemma_pull_failure(server: Server, walk: WalkView, rests: Seq<Rest>) -> (left: Seq<Rest>)
    requires
        walk_matches(server, walk, rests),
        rests.len() > 0,
        walk.iters.last().wants_page(),
        rests.last().pages.len() == 0,
    ensures
        walk_matches(server, pull(server, walk).0, left),
        outstanding(walk, rests).len() > 0,
        pull(server, walk).1 == Some(outstanding(walk, rests)[0]),
        outstanding(pull(server, walk).0, left) == outstanding(walk, rests).drop_first(),
{
    let dir = walk.iters.last();
    let rest = rests.last();
    let outer = walk.without_last();
    let outer_rests = rests.drop_last();
    lemma_outer(server, walk, rests);
    assert(entries_of(rest.nodes).len() == rest.nodes.len());
    let error = rest.failure->0;
    let done = Rest { failure: None, ..rest };
    assert(dir_matches(server, walk.table, walk.recursive, dir.stopped(), done));
    lemma_inner(server, outer, outer_rests, dir.stopped(), done);
    assert(walk.with_last(dir.stopped()) =~= (WalkView {
        iters: outer.iters.push(dir.stopped()),
        ..outer
    }));
    let behind = outstanding(outer, outer_rests);
    assert(dir_items(walk.recursive, dir, rest) =~= seq![Err(error)]);
    assert(dir_items(walk.recursive, dir.stopped(), done) =~= Seq::<Found>::empty());
    assert(outstanding(walk, rests) =~= seq![Err(error)] + behind);
    assert(outstanding(walk, rests).drop_first() =~= behind);
    assert(Seq::<Found>::empty() + behind =~= behind);
    outer_rests.push(done)
}

/// The step of a walk that hands out the entry `node` of its innermost directory.
proof fn lemma_deliver(
    server: Server,
    outer: WalkView,
    outer_rests: Seq<Rest>,
    dir: DirView,
    rest: Rest,
) -> (left: Seq<Rest>)
    requires
        walk_matches(server, outer, outer_rests),
        dir_matches(server, outer.table, outer.recursive, dir, rest),
        rest.nodes.len() > 0,
    ensures
        ({
            let status = status_of(rest.nodes[0].entry, dir.path);
            let all = dir_items(outer.recursive, dir, rest) + outstanding(outer, outer_rests);
            let after = (WalkView { iters: outer.iters.push(dir.rest()), ..outer }).entering(
                status,
            );
            &&& dir.front() == Some(status)
            &&& walk_matches(server, after, left)
            &&& all.len() > 0
            &&& all[0] == Ok::<StatusView, ErrorView>(status)
            &&& outstanding(after, left) == all.drop_first()
        }),
{
    let recursive = outer.recursive;
    let node = rest.nodes[0];
    assert(entries_of(rest.nodes).len() == rest.nodes.len());
    assert(dir.pending[0] == node.entry);
    let status = status_of(node.entry, dir.path);
    let all = dir_items(recursive, dir, rest) + outstanding(outer, outer_rests);
    let later = Rest { nodes: rest.nodes.drop_first(), ..rest };
    let next_dir = dir.rest();
    assert(next_dir.pending =~= entries_of(later.nodes));
    lemma_pending_irrelevant(server, outer.table, recursive, dir, next_dir, rest);
    lemma_inner(server, outer, outer_rests, next_dir, later);
    let walk = WalkView { iters: outer.iters.push(next_dir), ..outer };
    let rests = outer_rests.push(later);
    let after = outstanding(walk, rests);
    let own = node_items(recursive, dir.path, node);
    assert(nodes_items(recursive, dir.path, rest.nodes) == own + nodes_items(
        recursive,
        dir.path,
        later.nodes,
    ));
    assert(all =~= own + after);
    if status.isdir && recursive {
        let child = DirView::fresh(outer.table, status.path, false);
        let child_rest = Rest { nodes: Seq::empty(), pages: node.pages, failure: node.failure };
        assert(entries_of(child_rest.nodes) =~= child.pending);
        assert(node_served(server, outer.table, recursive, dir.path, node));
        assert(dir_matches(server, outer.table, recursive, child, child_rest));
        lemma_inner(server, walk, rests, child, child_rest);
        let below = pages_items(recursive, status.path, node.pages, node.failure);
        assert(dir_items(recursive, child, child_rest) =~= below);
        assert(own == seq![Ok(status)] + below);
        assert(below + after =~= all.drop_first());
        rests.push(child_rest)
    } else {
        assert(own == seq![Ok::<StatusView, ErrorView>(status)]);
        assert(after =~= all.drop_first());
        rests
    }
}

/// The walk hands out what is outstanding, one item after the other, and ends when nothing is.
proof fn lemma_pull(server: Server, walk: WalkView, rests: Seq<Rest>) -> (left: Seq<Rest>)
    requires
        walk_matches(server, walk, rests),
    ensures
        walk_matches(server, pull(server, walk).0, left),
        outstanding(walk, rests).len() == 0 ==> pull(server, walk).1 is None && outstanding(
            pull(server, walk).0,
            left,
        ).len() == 0,
        outstanding(walk, rests).len() > 0 ==> pull(server, walk).1 == Some(
            outstanding(walk, rests)[0],
        ) && outstanding(pull(server, walk).0, left) == outstanding(walk, rests).drop_first(),
    decreases walk.iters.len(),
{
    if walk.iters.len() == 0 {
        rests
    } else if walk.iters.last().wants_page() && rests.last().pages.len() == 0 {
        lemma_pull_failure(server, walk, rests)
    } else {
        let dir = walk.iters.last();
        let outer = walk.without_last();
        let outer_rests = rests.drop_last();
        lemma_outer(server, walk, rests);
        let (full, now) = lemma_fill(server, walk.table, walk.recursive, dir, rests.last());
        assert(entries_of(now.nodes).len() == now.nodes.len());
        if now.nodes.len() == 0 {
            assert(dir_items(walk.recursive, full, now) =~= Seq::<Found>::empty());
            assert(outstanding(walk, rests) =~= outstanding(outer, outer_rests));
            assert(full.front() is None);
            lemma_pull(server, outer, outer_rests)
        } else {
            assert(walk.with_last(full.rest()) =~= (WalkView {
                iters: outer.iters.push(full.rest()),
                ..outer
            }));
            lemma_deliver(server, outer, outer_rests, full, now)
        }
    }
}

proof fn lemma_pending_irrelevant(
    server: Server,
    table: TableView,
    recursive: bool,
    a: DirView,
    b: DirView,
    rest: Rest,
)
    requires
        b == (DirView { pending: b.pending, ..a }),
        pages_served(server, table, recursive, a, rest.pages, rest.failure),
    ensures
        pages_served(server, table, recursive, b, rest.pages, rest.failure),
{
    if rest.pages.len() > 0 {
        let page = server(a.page_request())->Ok_0->Some_0;
        assert(a.page_request() == b.page_request());
        assert(a.with_page(page) =~= b.with_page(page));
    }
}

/// What was found as items, with the end behind it.
pub open spec fn as_items(found: Seq<Found>) -> Seq<ItemView> {
    found.map_values(|f: Found| Some(f)).push(None)
}

proof fn lemma_pulled(server: Server, walk: WalkView, rests: Seq<Rest>)
    requires
        walk_matches(server, walk, rests),
    ensures
        pulled(server, walk, outstanding(walk, rests).len() + 1) == as_items(
            outstanding(walk, rests),
        ),
    decreases outstanding(walk, rests).len(),
{
    let all = outstanding(walk, rests);
    let left = lemma_pull(server, walk, rests);
    let (after, item) = pull(server, walk);
    if all.len() == 0 {
        reveal_with_fuel(pulled, 2);
        assert(pulled(server, walk, 1) =~= as_items(all));
    } else {
        lemma_pulled(server, after, left);
        assert(as_items(all) =~= seq![item] + as_items(all.drop_first()));
    }
}

/// A walk of a directory that is listed in `pages` hands out every entry of the tree exactly
/// once and in order, each directory before what it holds, with one error for each directory
/// whose listing fails, behind what was listed of it, and then ends. A walk that is not recursive
/// hands out the entries of the directory itself.
pub proof fn law_walk_is_complete_and_ordered(
    server: Server,
    table: TableView,
    path: Seq<char>,
    recursive: bool,
    pages: Seq<Seq<Node>>,
    failure: Option<ErrorView>,
)
    requires
        pages_served(server, table, recursive, DirView::fresh(table, path, false), pages, failure),
    ensures
        pulled(
            server,
            WalkView::fresh(table, path, recursive),
            pages_items(recursive, path, pages, failure).len() + 1,
        ) == as_items(pages_items(recursive, path, pages, failure)),
{
    let walk = WalkView::fresh(table, path, recursive);
    let rest = Rest { nodes: Seq::empty(), pages, failure };
    let rests = seq![rest];
    assert(entries_of(rest.nodes) =~= walk.iters[0].pending);
    assert(walk_matches(server, walk, rests));
    assert(rests.drop_last() =~= Seq::<Rest>::empty());
    assert(nodes_items(recursive, path, rest.nodes) =~= Seq::<Found>::empty());
    assert(outstanding(walk.without_last(), rests.drop_last()) =~= Seq::<Found>::empty());
    assert(rests.last() == rest);
    assert(outstanding(walk, rests) =~= pages_items(recursive, path, pages, failure));
    lemma_pulled(server, walk, rests);
}

} // verus!
