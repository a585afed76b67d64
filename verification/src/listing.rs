//! Walking directories page by page.
//!
//! A walk never performs a request itself. It either hands out the request for the page that it
//! needs next, and goes on when it is given the reply, or it hands out the next entry.
use vstd::prelude::*;

use crate::error::{ErrorView, HdfsError};
use crate::mount::{
    law_entry_of_covered_path_is_covered, LinkView, MountLink, MountTable, TableView,
};
use crate::rpc::{
    entry_views, page_reply, CallView, ListingReply, PageReply, PageView, Request, RequestView,
    RpcCall,
};
use crate::shared::share;
use crate::status::{status_of, EntryView, FileStatus, FileType, HdfsFileStatus, StatusView};
use std::collections::VecDeque;
use std::sync::Arc;

verus! {

/// The entries of one directory.
#[derive(Debug)]
pub struct DirListingIterator {
    path: String,
    resolved_path: String,
    link: MountLink,
    files_only: bool,
    partial_listing: VecDeque<HdfsFileStatus>,
    remaining: u32,
    last_seen: Vec<u8>,
}

/// What the listing of one directory says: the directory, the entries that were fetched and not
/// yet handed out, how many are left on the NameNode, and the name of the last one fetched.
#[verifier::ext_equal]
pub struct DirView {
    pub path: Seq<char>,
    pub resolved_path: Seq<char>,
    pub link: LinkView,
    pub files_only: bool,
    pub pending: Seq<EntryView>,
    pub remaining: u32,
    pub last_seen: Seq<u8>,
}

impl View for DirListingIterator {
    type V = DirView;

    closed spec fn view(&self) -> DirView {
        DirView {
            path: self.path@,
            resolved_path: self.resolved_path@,
            link: self.link@,
            files_only: self.files_only,
            pending: entry_views(self.partial_listing@),
            remaining: self.remaining,
            last_seen: self.last_seen@,
        }
    }
}

/// The entries of a page that a listing keeps: all of them, or all but the directories.
pub open spec fn kept(entries: Seq<EntryView>, files_only: bool) -> Seq<EntryView> {
    entries.filter(|e: EntryView| !files_only || e.file_type != FileType::IsDir)
}

impl DirView {
    /// The listing of a directory before its first page.
    pub open spec fn fresh(table: TableView, path: Seq<char>, files_only: bool) -> DirView {
        DirView {
            path,
            resolved_path: table.target(path),
            link: table.link_for(path),
            files_only,
            pending: Seq::empty(),
            remaining: 1,
            last_seen: Seq::empty(),
        }
    }

    /// A page must be fetched before the listing can go on.
    pub open spec fn wants_page(self) -> bool {
        self.pending.len() == 0 && self.remaining > 0
    }

    /// The request for the page after the last entry that was fetched.
    pub open spec fn page_request(self) -> CallView {
        CallView {
            protocol: self.link.protocol,
            request: RequestView::GetListing {
                src: self.resolved_path,
                start_after: self.last_seen,
                need_location: false,
            },
        }
    }

    /// The listing with the entries of a page.
    pub open spec fn with_page(self, page: PageView) -> DirView {
        DirView {
            pending: kept(page.entries, self.files_only),
            remaining: page.remaining,
            last_seen: if page.entries.len() > 0 {
                page.entries.last().path
            } else {
                Seq::empty()
            },
            ..self
        }
    }

    /// The error that the reply to a request for a page means, if any.
    pub open spec fn page_error(self, reply: PageReply) -> Option<ErrorView> {
        match reply {
            Ok(Some(_)) => None,
            Ok(None) => Some(ErrorView::FileNotFound(self.path)),
            Err(e) => Some(e),
        }
    }

    /// The listing after an error: nothing more is fetched.
    pub open spec fn stopped(self) -> DirView {
        DirView { remaining: 0, ..self }
    }

    /// The next entry of those that were fetched.
    pub open spec fn front(self) -> Option<StatusView> {
        if self.pending.len() > 0 {
            Some(status_of(self.pending[0], self.path))
        } else {
            None
        }
    }

    /// The listing without that entry.
    pub open spec fn rest(self) -> DirView {
        if self.pending.len() > 0 {
            DirView { pending: self.pending.drop_first(), ..self }
        } else {
            self
        }
    }
}

/// What comes next in a listing: a request whose reply the listing needs, or an entry, an error,
/// or the end.
#[derive(Debug)]
pub enum ListStep {
    Fetch(RpcCall),
    Item(Option<Result<FileStatus, HdfsError>>),
}

pub type ItemView = Option<Result<StatusView, ErrorView>>;

/// What a step says.
pub enum StepView {
    Fetch(CallView),
    Item(ItemView),
}

/// What an item says.
pub open spec fn item_view(item: Option<Result<FileStatus, HdfsError>>) -> ItemView {
    match item {
        Some(Ok(status)) => Some(Ok(status@)),
        Some(Err(e)) => Some(Err(e@)),
        None => None,
    }
}

impl View for ListStep {
    type V = StepView;

    open spec fn view(&self) -> StepView {
        match *self {
            ListStep::Fetch(call) => StepView::Fetch(call@),
            ListStep::Item(item) => StepView::Item(item_view(item)),
        }
    }
}

/// What an optional status says, as an item.
pub open spec fn found(status: Option<StatusView>) -> ItemView {
    match status {
        Some(status) => Some(Ok(status)),
        None => None,
    }
}

/// What a step says is the call to make, or the entry, the error or the end.
pub proof fn law_step_says_what_it_holds(call: RpcCall, status: FileStatus, e: HdfsError)
    ensures
        ListStep::Fetch(call)@ == StepView::Fetch(call@),
        ListStep::Item(Some(Ok(status)))@ == StepView::Item(Some(Ok(status@))),
        ListStep::Item(Some(Err(e)))@ == StepView::Item(Some(Err(e@))),
        ListStep::Item(None)@ == StepView::Item(None),
        item_view(Some(Ok(status))) == Some(Ok::<StatusView, ErrorView>(status@)),
        item_view(Some(Err(e))) == Some(Err::<StatusView, ErrorView>(e@)),
        item_view(None) is None,
        found(Some(status@)) == Some(Ok::<StatusView, ErrorView>(status@)),
        found(None) is None,
{
}

impl DirListingIterator {
    /// The listing of the directory `path`.
    pub fn new(path: String, mount_table: &MountTable, files_only: bool) -> (res: Self)
        requires
            mount_table.wf(),
            mount_table@.covers(path@),
        ensures
            res@ == DirView::fresh(mount_table@, path@, files_only),
    {
        let (link, resolved_path) = mount_table.resolve(&path);
        let res = DirListingIterator {
            path,
            resolved_path,
            link: link.clone(),
            files_only,
            partial_listing: VecDeque::new(),
            remaining: 1,
            last_seen: Vec::new(),
        };
        assert(res@ =~= DirView::fresh(mount_table@, path@, files_only));
        res
    }

    /// Takes in the reply to the request for a page. Returns whether the page has an entry to
    /// hand out.
    pub fn get_next_batch(&mut self, reply: ListingReply) -> (res: Result<bool, HdfsError>)
        ensures
            match page_reply(reply) {
                Ok(Some(page)) => final(self)@ == old(self)@.with_page(page) && res
                    == Ok::<bool, HdfsError>(final(self)@.pending.len() > 0),
                _ => *final(self) == *old(self) && (res matches Err(e) && Some(e@) == old(
                    self,
                )@.page_error(page_reply(reply))),
            },
    {
        match reply {
            Ok(Some(dir_list)) => {
                let ghost page = dir_list@;
                let ghost before = self@;
                let entries = dir_list.partial_listing;
                self.last_seen = if entries.len() > 0 {
                    let last = &entries[entries.len() - 1];
                    assert(page.entries.last() == last@);
                    last.path.clone()
                } else {
                    Vec::new()
                };
                self.remaining = dir_list.remaining_entries;
                self.partial_listing = keep_entries(entries, self.files_only);
                assert(self@ =~= before.with_page(page));
                assert(entry_views(self.partial_listing@).len() == self.partial_listing@.len());
                Ok(self.partial_listing.len() > 0)
            },
            Ok(None) => Err(HdfsError::FileNotFound(self.path.clone())),
            Err(e) => Err(e),
        }
    }

    /// Hands out the next entry of those that were fetched.
    fn take(&mut self) -> (res: Option<FileStatus>)
        ensures
            final(self)@ == old(self)@.rest(),
            match res {
                Some(status) => old(self)@.front() == Some(status@),
                None => old(self)@.front() is None,
            },
    {
        let ghost before = self@;
        assert(before.pending.len() == self.partial_listing@.len());
        match self.partial_listing.pop_front() {
            Some(next) => {
                assert(before.pending[0] == next@);
                assert(self@ =~= before.rest());
                Some(FileStatus::from(next, &self.path))
            },
            None => None,
        }
    }

    /// Goes on with the listing: asks for a page if there is none to hand out from, else hands
    /// out the next entry.
    pub fn next(&mut self) -> (res: ListStep)
        ensures
            if old(self)@.wants_page() {
                *final(self) == *old(self) && res@ == StepView::Fetch(old(self)@.page_request())
            } else {
                final(self)@ == old(self)@.rest() && res@ == StepView::Item(
                    found(old(self)@.front()),
                )
            },
    {
        assert(self@.pending.len() == self.partial_listing@.len());
        if self.partial_listing.len() == 0 && self.remaining > 0 {
            let start_after = self.last_seen.clone();
            assert(start_after@ =~= self.last_seen@);
            ListStep::Fetch(
                RpcCall {
                    protocol: share(&self.link.protocol),
                    request: Request::GetListing {
                        src: self.resolved_path.clone(),
                        start_after,
                        need_location: false,
                    },
                },
            )
        } else {
            match self.take() {
                Some(status) => ListStep::Item(Some(Ok(status))),
                None => ListStep::Item(None),
            }
        }
    }

    /// Goes on with the listing after the reply to the request for a page.
    pub fn resume(&mut self, reply: ListingReply) -> (res: Option<Result<FileStatus, HdfsError>>)
        ensures
            match page_reply(reply) {
                Ok(Some(page)) => final(self)@ == old(self)@.with_page(page).rest() && item_view(
                    res,
                ) == found(old(self)@.with_page(page).front()),
                _ => final(self)@ == old(self)@.stopped() && (res matches Some(Err(e)) && Some(e@)
                    == old(self)@.page_error(page_reply(reply))),
            },
    {
        match self.get_next_batch(reply) {
            Err(error) => {
                self.remaining = 0;
                Some(Err(error))
            },
            Ok(_) => match self.take() {
                Some(status) => Some(Ok(status)),
                None => None,
            },
        }
    }
}

/// The entries of a page that a listing keeps, in order.
fn keep_entries(entries: Vec<HdfsFileStatus>, files_only: bool) -> (res: VecDeque<HdfsFileStatus>)
    ensures
        entry_views(res@) == kept(entry_views(entries@), files_only),
{
    let ghost all = entry_views(entries@);
    let ghost p = |e: EntryView| !files_only || e.file_type != FileType::IsDir;
    let mut entries = entries;
    let mut res: VecDeque<HdfsFileStatus> = VecDeque::new();
    proof {
        reveal(Seq::filter);
        assert(all.skip(all.len() as int) =~= Seq::<EntryView>::empty());
        assert(entry_views(res@) =~= all.skip(all.len() as int).filter(p));
    }
    while entries.len() > 0
        invariant
            p == (|e: EntryView| !files_only || e.file_type != FileType::IsDir),
            entries@.len() <= all.len(),
            entry_views(entries@) == all.take(entries@.len() as int),
            entry_views(res@) == all.skip(entries@.len() as int).filter(p),
        decreases entries@.len(),
    {
        let ghost before = entry_views(entries@);
        let ghost n = entries@.len() - 1;
        let ghost done = entry_views(res@);
        assert(before[n] == entries@[n]@);
        let entry = entries.pop().unwrap();
        proof {
            assert(all[n] == entry@) by {
                assert(before[n] == all[n]);
            }
            assert(entry_views(entries@) =~= all.take(n));
            assert(all.skip(n) =~= seq![entry@] + all.skip(n + 1));
            Seq::filter_distributes_over_add(seq![entry@], all.skip(n + 1), p);
            reveal_with_fuel(Seq::filter, 2);
            assert(seq![entry@].drop_last() =~= Seq::<EntryView>::empty());
            assert(seq![entry@].filter(p) =~= if p(entry@) {
                seq![entry@]
            } else {
                Seq::<EntryView>::empty()
            });
        }
        if !files_only || entry.file_type != FileType::IsDir {
            res.push_front(entry);
            assert(entry_views(res@) =~= seq![entry@] + done);
        } else {
            assert(done =~= Seq::<EntryView>::empty() + done);
        }
    }
    assert(all.skip(0) =~= all);
    res
}

/// The entries of a directory, and, if asked for, those of the directories below it.
#[derive(Debug)]
pub struct ListStatusIterator {
    mount_table: Arc<MountTable>,
    recursive: bool,
    iters: Vec<DirListingIterator>,
}

/// What a list of directory listings says.
pub open spec fn dir_views(iters: Seq<DirListingIterator>) -> Seq<DirView> {
    iters.map_values(|d: DirListingIterator| d@)
}

/// What a walk says: the directories that it is in the middle of, the innermost one last.
#[verifier::ext_equal]
pub struct WalkView {
    pub table: TableView,
    pub recursive: bool,
    pub iters: Seq<DirView>,
}

impl View for ListStatusIterator {
    type V = WalkView;

    closed spec fn view(&self) -> WalkView {
        WalkView {
            table: self.mount_table@,
            recursive: self.recursive,
            iters: dir_views(self.iters@),
        }
    }
}

impl WalkView {
    /// The walk of a directory before its first entry.
    pub open spec fn fresh(table: TableView, path: Seq<char>, recursive: bool) -> WalkView {
        WalkView { table, recursive, iters: seq![DirView::fresh(table, path, false)] }
    }

    /// Some link serves every directory that the walk is in.
    pub open spec fn wf(self) -> bool {
        &&& self.table.rooted()
        &&& forall|i: int|
            0 <= i < self.iters.len() ==> self.table.covers(#[trigger] self.iters[i].path)
    }

    /// The walk has asked for a page of the innermost directory.
    pub open spec fn awaits_page(self) -> bool {
        self.iters.len() > 0 && self.iters.last().wants_page()
    }

    /// The walk with another state of the innermost directory.
    pub open spec fn with_last(self, dir: DirView) -> WalkView {
        WalkView { iters: self.iters.drop_last().push(dir), ..self }
    }

    /// The walk without the innermost directory.
    pub open spec fn without_last(self) -> WalkView {
        WalkView { iters: self.iters.drop_last(), ..self }
    }

    /// The walk after an entry was handed out: if the entry is a directory and the walk is
    /// recursive, that directory comes next.
    pub open spec fn entering(self, status: StatusView) -> WalkView {
        if status.isdir && self.recursive {
            WalkView {
                iters: self.iters.push(DirView::fresh(self.table, status.path, false)),
                ..self
            }
        } else {
            self
        }
    }

    /// The next step of the walk, and the walk after it. A directory without further entries is
    /// left for the one around it.
    pub open spec fn advance(self) -> (WalkView, StepView)
        decreases self.iters.len(),
    {
        if self.iters.len() == 0 {
            (self, StepView::Item(None))
        } else if self.iters.last().wants_page() {
            (self, StepView::Fetch(self.iters.last().page_request()))
        } else {
            match self.iters.last().front() {
                Some(status) => (
                    self.with_last(self.iters.last().rest()).entering(status),
                    StepView::Item(Some(Ok(status))),
                ),
                None => self.without_last().advance(),
            }
        }
    }

    /// The step after the reply to the request for a page of the innermost directory, and the
    /// walk after it.
    pub open spec fn resumed(self, reply: PageReply) -> (WalkView, StepView) {
        let dir = self.iters.last();
        match reply {
            Ok(Some(page)) => match dir.with_page(page).front() {
                Some(status) => (
                    self.with_last(dir.with_page(page).rest()).entering(status),
                    StepView::Item(Some(Ok(status))),
                ),
                None => self.without_last().advance(),
            },
            Ok(None) => (
                self.with_last(dir.stopped()),
                StepView::Item(Some(Err(ErrorView::FileNotFound(dir.path)))),
            ),
            Err(e) => (self.with_last(dir.stopped()), StepView::Item(Some(Err(e)))),
        }
    }
}

impl ListStatusIterator {
    pub open spec fn wf(&self) -> bool {
        self@.wf()
    }

    /// The walk of the directory `path`.
    pub fn new(path: String, mount_table: Arc<MountTable>, recursive: bool) -> (res: Self)
        requires
            mount_table@.rooted(),
            mount_table@.covers(path@),
        ensures
            res@ == WalkView::fresh(mount_table@, path@, recursive),
            res.wf(),
    {
        let initial = DirListingIterator::new(path, &mount_table, false);
        let mut iters: Vec<DirListingIterator> = Vec::new();
        iters.push(initial);
        let res = ListStatusIterator { mount_table, recursive, iters };
        assert(res@.iters =~= seq![initial@]);
        res
    }

    /// Hands out an entry of the innermost directory, and goes into the entry if it is a
    /// directory and the walk is recursive.
    fn deliver(&mut self, status: FileStatus) -> (res: ListStep)
        requires
            old(self).wf(),
            old(self)@.table.covers(status@.path),
        ensures
            final(self)@ == old(self)@.entering(status@),
            final(self).wf(),
            res@ == StepView::Item(Some(Ok(status@))),
    {
        let ghost before = self@;
        if status.isdir && self.recursive {
            let child = DirListingIterator::new(status.path.clone(), &self.mount_table, false);
            self.iters.push(child);
            assert(self@.iters =~= before.iters.push(child@));
        }
        ListStep::Item(Some(Ok(status)))
    }

    /// Goes on with the walk: asks for the page that it needs, or hands out the next entry. The
    /// walk is over when there is none.
    pub fn next(&mut self) -> (res: ListStep)
        requires
            old(self).wf(),
        ensures
            (final(self)@, res@) == old(self)@.advance(),
            final(self).wf(),
            res is Fetch ==> final(self)@.awaits_page(),
    {
        let ghost start = self@;
        while self.iters.len() > 0
            invariant
                start == old(self)@,
                self.wf(),
                self@.advance() == start.advance(),
            decreases self.iters@.len(),
        {
            let ghost before = self@;
            let mut iter = self.iters.pop().unwrap();
            let ghost dir = iter@;
            assert(before.iters.last() == dir);
            assert(before.table.covers(before.iters.last().path));
            assert(self@ =~= before.without_last());
            let step = iter.next();
            match step {
                ListStep::Fetch(call) => {
                    self.iters.push(iter);
                    assert(self@.iters =~= before.iters);
                    assert(self@ =~= before);
                    return ListStep::Fetch(call);
                },
                ListStep::Item(Some(Ok(status))) => {
                    self.iters.push(iter);
                    proof {
                        assert(self@ =~= before.with_last(dir.rest()));
                        lemma_front_covered(before.table, dir);
                        lemma_with_last_wf(before, dir.rest());
                    }
                    return self.deliver(status);
                },
                ListStep::Item(Some(Err(_))) => {
                    assert(false);
                },
                ListStep::Item(None) => {},
            }
        }
        assert(self@.iters.len() == 0);
        ListStep::Item(None)
    }

    /// Goes on with the walk after the reply to the request for a page.
    pub fn resume(&mut self, reply: ListingReply) -> (res: ListStep)
        requires
            old(self).wf(),
            old(self)@.awaits_page(),
        ensures
            (final(self)@, res@) == old(self)@.resumed(page_reply(reply)),
            final(self).wf(),
            res is Fetch ==> final(self)@.awaits_page(),
    {
        let ghost before = self@;
        let ghost said = page_reply(reply);
        assert(before.iters.len() == self.iters@.len());
        let mut iter = self.iters.pop().unwrap();
        let ghost dir = iter@;
        assert(before.iters.last() == dir);
        assert(before.table.covers(before.iters.last().path));
        assert(self@ =~= before.without_last());
        match iter.resume(reply) {
            Some(Ok(status)) => {
                self.iters.push(iter);
                proof {
                    let page = said->Ok_0->Some_0;
                    assert(self@ =~= before.with_last(iter@));
                    lemma_front_covered(before.table, dir.with_page(page));
                    lemma_with_last_wf(before, iter@);
                }
                self.deliver(status)
            },
            Some(Err(e)) => {
                self.iters.push(iter);
                proof {
                    assert(self@ =~= before.with_last(dir.stopped()));
                    lemma_with_last_wf(before, dir.stopped());
                }
                ListStep::Item(Some(Err(e)))
            },
            None => self.next(),
        }
    }
}

/// Some link serves every entry of a directory that some link serves.
proof fn lemma_front_covered(table: TableView, dir: DirView)
    requires
        table.rooted(),
        table.covers(dir.path),
    ensures
        dir.front() matches Some(status) ==> table.covers(status.path),
{
    if dir.pending.len() > 0 {
        let name = dir.pending[0].path;
        law_entry_of_covered_path_is_covered(table, dir.path, vstd::utf8::decode_utf8(name));
    }
}

proof fn lemma_with_last_wf(walk: WalkView, dir: DirView)
    requires
        walk.wf(),
        walk.iters.len() > 0,
        dir.path == walk.iters.last().path,
    ensures
        walk.with_last(dir).wf(),
{
    assert(walk.table.covers(walk.iters.last().path));
    assert forall|i: int| 0 <= i < walk.with_last(dir).iters.len() implies walk.table.covers(
        #[trigger] walk.with_last(dir).iters[i].path,
    ) by {
        if i < walk.iters.len() - 1 {
            assert(walk.table.covers(walk.iters[i].path));
        }
    }
}

} // verus!
