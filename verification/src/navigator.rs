use vstd::prelude::*;
use crate::Key;
use crate::controller::{Effect, ControllerFSM, Graph, with_edges, table_view};
use crate::read_buffer::{BufElem, ReadBuffer, ReadAction, FromReadAction, INIT, rows, buf_wf, max_size, read_graph, add_edges};
use crate::message_box::MessageBox;
use crate::edit_buffer::change_log::copy_chars;

verus! {

/// What a page shows.
#[derive(Debug, Clone, Copy, PartialEq, Eq, Structural)]
pub enum PageKind {
    Buffer,
    Directory,
    Navigator,
}

/// A page as the navigator keeps it: its kind and the id that tells it from
/// the others (the path of a file or directory).
pub struct PageRef {
    pub kind: PageKind,
    pub id: Vec<char>,
}

impl View for PageRef {
    type V = (PageKind, Seq<char>);

    open spec fn view(&self) -> (PageKind, Seq<char>) {
        (self.kind, self.id@)
    }
}

impl PageRef {
    pub fn copy(&self) -> (r: PageRef)
        ensures
            r@ == self@,
    {
        PageRef { kind: self.kind, id: copy_chars(self.id.as_slice()) }
    }
}

/// The views of the pages.
pub open spec fn pages_view(l: Seq<PageRef>) -> Seq<(PageKind, Seq<char>)> {
    Seq::new(l.len(), |i: int| l[i]@)
}

/// `l` with its entry `i` moved to the front.
pub open spec fn to_front<T>(l: Seq<T>, i: int) -> Seq<T> {
    seq![l[i]] + l.remove(i)
}

/// The first place in `l` with the id `id`, if any.
pub open spec fn position_of(l: Seq<(PageKind, Seq<char>)>, id: Seq<char>) -> Option<int> {
    if exists|i: int| 0 <= i < l.len() && l[i].1 == id {
        Some(choose|i: int| 0 <= i < l.len() && l[i].1 == id && forall|j: int| 0 <= j < i ==> l[j].1 != id)
    } else {
        None
    }
}

/// The first place in `l` of a page of kind `k`, if any.
pub open spec fn position_of_kind(l: Seq<(PageKind, Seq<char>)>, k: PageKind) -> Option<int> {
    if exists|i: int| 0 <= i < l.len() && l[i].0 == k {
        Some(choose|i: int| 0 <= i < l.len() && l[i].0 == k && forall|j: int| 0 <= j < i ==> l[j].0 != k)
    } else {
        None
    }
}

/// No two pages of the list have the same id.
pub open spec fn ids_distinct(l: Seq<(PageKind, Seq<char>)>) -> bool {
    forall|a: int, b: int| 0 <= a < b < l.len() ==> l[a].1 != l[b].1
}

/// Moving a page to the front keeps the ids of the list distinct.
pub proof fn lemma_to_front_distinct(l: Seq<(PageKind, Seq<char>)>, i: int)
    requires
        ids_distinct(l),
        0 <= i < l.len(),
    ensures
        ids_distinct(to_front(l, i)),
{
    let r = to_front(l, i);
    assert forall|a: int, b: int| 0 <= a < b < r.len() implies r[a].1 != r[b].1 by {
        let oa = if a == 0 { i } else if a - 1 < i { a - 1 } else { a };
        let ob = if b - 1 < i { b - 1 } else { b };
        assert(r[a] == l[oa]);
        assert(r[b] == l[ob]);
        assert(oa != ob);
        if oa < ob {
        } else {
        }
    }
}

/// The pages that are open, the latest chosen first, and the one shown.
pub struct Navigator {
    pub needs_refresh: bool,
    pub current: Option<PageRef>,
    pub list: Vec<PageRef>,
    pub rb: ReadBuffer,
}

/// The state of the navigator's page: `*` unless searching.
pub open spec fn nav_mark(state: Seq<char>) -> char {
    if state == crate::read_buffer::SEARCH@ {
        '/'
    } else {
        '*'
    }
}

pub(crate) fn same_id(a: &Vec<char>, b: &Vec<char>) -> (r: bool)
    ensures
        r == (a@ == b@),
{
    if a.len() != b.len() {
        return false;
    }
    let mut i: usize = 0;
    while i < a.len()
        invariant
            i <= a@.len(),
            a@.len() == b@.len(),
            forall|j: int| 0 <= j < i ==> a@[j] == b@[j],
        decreases a@.len() - i,
    {
        if a[i] != b[i] {
            return false;
        }
        i = i + 1;
    }
    assert(a@ =~= b@);
    true
}

impl Navigator {
    pub open spec fn wf(&self) -> bool {
        self.rb.wf()
    }

    pub open spec fn spec_list(&self) -> Seq<(PageKind, Seq<char>)> {
        pages_view(self.list@)
    }

    /// A navigator with no page.
    pub fn new() -> (r: Self)
        ensures
            r.wf(),
            r.spec_list().len() == 0,
            r.current is None,
            !r.needs_refresh,
    {
        let mut row: Vec<BufElem> = Vec::new();
        row.push(BufElem::Eol);
        let mut b: Vec<Vec<BufElem>> = Vec::new();
        b.push(row);
        let rb = ReadBuffer::new(b, MessageBox::new());
        assert(buf_wf(rows(rb.buf@))) by {
            assert(rows(rb.buf@)[0] == seq![BufElem::Eol]);
        }
        let r = Navigator { needs_refresh: false, current: None, list: Vec::new(), rb };
        assert(r.spec_list() =~= Seq::<(PageKind, Seq<char>)>::empty());
        r
    }

    /// The page shown.
    pub fn current_page(&self) -> (r: &PageRef)
        requires
            self.current is Some,
        ensures
            *r == self.current->0,
    {
        match &self.current {
            Some(p) => p,
            None => {
                assert(false);
                &self.list[0]
            },
        }
    }

    /// Shows `page`; the list is to be drawn again.
    pub fn set(&mut self, page: PageRef)
        ensures
            final(self).current == Some(page),
            final(self).needs_refresh,
            final(self).list == old(self).list,
            final(self).rb == old(self).rb,
    {
        self.needs_refresh = true;
        self.current = Some(page);
    }

    /// Moves page `i` to the front and shows it.
    pub fn select(&mut self, i: usize)
        requires
            i < old(self).list@.len(),
        ensures
            final(self).spec_list() == to_front(old(self).spec_list(), i as int),
            final(self).current matches Some(p) && p@ == old(self).spec_list()[i as int],
            final(self).needs_refresh,
            final(self).rb == old(self).rb,
            ids_distinct(old(self).spec_list()) ==> ids_distinct(final(self).spec_list()),
    {
        let ghost l0 = self.spec_list();
        proof {
            if ids_distinct(l0) {
                lemma_to_front_distinct(l0, i as int);
            }
        }
        let e = self.list.remove(i);
        self.list.insert(0, e);
        let p = self.list[0].copy();
        self.set(p);
        assert(self.spec_list() =~= to_front(l0, i as int));
    }

    /// Closes page `i`.
    pub fn delete(&mut self, i: usize)
        requires
            i < old(self).list@.len(),
        ensures
            final(self).spec_list() == old(self).spec_list().remove(i as int),
            final(self).current == old(self).current,
            final(self).needs_refresh,
            final(self).rb == old(self).rb,
            ids_distinct(old(self).spec_list()) ==> ids_distinct(final(self).spec_list()),
    {
        let ghost l0 = self.spec_list();
        self.list.remove(i);
        self.needs_refresh = true;
        assert(self.spec_list() =~= l0.remove(i as int));
        proof {
            let l1 = l0.remove(i as int);
            if ids_distinct(l0) {
                assert forall|a: int, b: int| 0 <= a < b < l1.len() implies l1[a].1 != l1[b].1 by {
                    let oa = if a < i { a } else { a + 1 };
                    let ob = if b < i { b } else { b + 1 };
                    assert(l1[a] == l0[oa]);
                    assert(l1[b] == l0[ob]);
                }
            }
        }
    }

    /// Closes the front page and shows the next.
    pub fn pop(&mut self)
        requires
            old(self).list@.len() >= 2,
        ensures
            final(self).spec_list() == old(self).spec_list().drop_first(),
            final(self).current matches Some(p) && p@ == old(self).spec_list()[1],
            final(self).needs_refresh,
            final(self).rb == old(self).rb,
            ids_distinct(old(self).spec_list()) ==> ids_distinct(final(self).spec_list()),
    {
        let ghost l0 = self.spec_list();
        self.list.remove(0);
        assert(self.spec_list() =~= l0.drop_first());
        proof {
            let l1 = l0.drop_first();
            if ids_distinct(l0) {
                assert forall|a: int, b: int| 0 <= a < b < l1.len() implies l1[a].1 != l1[b].1 by {
                    assert(l1[a] == l0[a + 1]);
                    assert(l1[b] == l0[b + 1]);
                }
            }
        }
        self.select(0);
        assert(to_front(l0.drop_first(), 0) =~= l0.drop_first());
    }

    /// Shows `page`: the open page with its id moves to the front, or `page`
    /// is put in front.
    pub fn push(&mut self, page: PageRef)
        ensures
            final(self).spec_list() == (match position_of(old(self).spec_list(), page.id@) {
                Some(i) => to_front(old(self).spec_list(), i),
                None => seq![page@] + old(self).spec_list(),
            }),
            final(self).current matches Some(p) && p@ == final(self).spec_list()[0],
            final(self).needs_refresh,
            final(self).rb == old(self).rb,
            ids_distinct(old(self).spec_list()) ==> ids_distinct(final(self).spec_list()),
    {
        let ghost l0 = self.spec_list();
        let mut i: usize = 0;
        while i < self.list.len()
            invariant
                i <= self.list@.len(),
                *self == *old(self),
                l0 == self.spec_list(),
                forall|j: int| 0 <= j < i ==> l0[j].1 != page.id@,
            decreases self.list@.len() - i,
        {
            if same_id(&self.list[i].id, &page.id) {
                assert(l0[i as int].1 == page.id@);
                let ghost c = choose|k: int| 0 <= k < l0.len() && l0[k].1 == page.id@ && forall|j: int| 0 <= j < k ==> l0[j].1 != page.id@;
                proof {
                    if c < i {
                    } else if c > i {
                    }
                    assert(c == i);
                    if ids_distinct(l0) {
                        lemma_to_front_distinct(l0, i as int);
                    }
                }
                self.select(i);
                return;
            }
            i = i + 1;
        }
        proof {
            if ids_distinct(l0) {
                let l1 = seq![page@] + l0;
                assert forall|a: int, b: int| 0 <= a < b < l1.len() implies l1[a].1 != l1[b].1 by {
                    if a == 0 {
                        assert(l1[b] == l0[b - 1]);
                    } else {
                        assert(l1[a] == l0[a - 1]);
                        assert(l1[b] == l0[b - 1]);
                    }
                }
            }
        }
        self.list.insert(0, page);
        assert(self.spec_list() =~= seq![page@] + l0);
        self.select(0);
        assert(to_front(seq![page@] + l0, 0) =~= seq![page@] + l0);
    }

    /// Replaces the front page by `e` and shows it.
    pub fn pop_and_push(&mut self, e: PageRef)
        requires
            old(self).list@.len() >= 1,
        ensures
            final(self).spec_list() == old(self).spec_list().update(0, e@),
            final(self).current matches Some(p) && p@ == e@,
            final(self).needs_refresh,
            final(self).rb == old(self).rb,
    {
        let ghost l0 = self.spec_list();
        let ghost ev = e@;
        self.list.remove(0);
        self.list.insert(0, e);
        assert(self.spec_list() =~= l0.update(0, ev));
        self.select(0);
        assert(to_front(l0.update(0, ev), 0) =~= l0.update(0, ev));
    }

    /// Lists the pages, one status line each (a single empty line when there
    /// is none); the list is drawn afresh.
    pub fn refresh_buffer(&mut self, statuses: &Vec<Vec<char>>)
        requires
            old(self).wf(),
            statuses@.len() < max_size(),
            forall|i: int| 0 <= i < statuses@.len() ==> (#[trigger] statuses@[i])@.len() + 1 <= max_size(),
        ensures
            final(self).wf(),
            final(self).rb.lines() == (if statuses@.len() == 0 {
                seq![seq![BufElem::Eol]]
            } else {
                Seq::new(statuses@.len(), |i: int| status_line(statuses@[i]@))
            }),
            final(self).list == old(self).list,
            final(self).current == old(self).current,
            !final(self).needs_refresh,
    {
        let mut v: Vec<Vec<BufElem>> = Vec::new();
        let mut i: usize = 0;
        while i < statuses.len()
            invariant
                i <= statuses@.len(),
                rows(v@) == Seq::new(i as nat, |k: int| status_line(statuses@[k]@)),
            decreases statuses@.len() - i,
        {
            let s = &statuses[i];
            let mut row: Vec<BufElem> = Vec::new();
            let mut j: usize = 0;
            while j < s.len()
                invariant
                    j <= s@.len(),
                    row@ == crate::edit_buffer::snippet::char_elems(s@.take(j as int)),
                decreases s@.len() - j,
            {
                row.push(BufElem::Char(s[j]));
                j = j + 1;
                assert(crate::edit_buffer::snippet::char_elems(s@.take(j as int)) == crate::edit_buffer::snippet::char_elems(
                    s@.take(j - 1),
                ).push(crate::edit_buffer::snippet::elem_of(s@[j - 1])));
            }
            assert(s@.take(s@.len() as int) == s@);
            row.push(BufElem::Eol);
            assert(row@ == status_line(s@));
            let ghost prev = rows(v@);
            v.push(row);
            assert(rows(v@) == prev.push(status_line(s@)));
            i = i + 1;
            assert(rows(v@) =~= Seq::new(i as nat, |k: int| status_line(statuses@[k]@)));
        }
        if v.len() == 0 {
            let mut row: Vec<BufElem> = Vec::new();
            row.push(BufElem::Eol);
            v.push(row);
            assert(rows(v@) =~= seq![seq![BufElem::Eol]]);
        }
        proof {
            let rs = rows(v@);
            assert forall|r: int| 0 <= r < rs.len() implies #[trigger] crate::read_buffer::search::line_wf(rs[r])
                && rs[r].len() <= max_size() by {
                if statuses@.len() > 0 {
                    let l = status_line(statuses@[r]@);
                    assert(rs[r] == l);
                    assert forall|q: int| 0 <= q < l.len() - 1 implies l[q] != BufElem::Eol by {
                        assert(l[q] == crate::edit_buffer::snippet::char_elems(statuses@[r]@)[q]);
                    }
                } else {
                    assert(rs[r] == seq![BufElem::Eol]);
                }
            }
        }
        self.rb = ReadBuffer::new(v, MessageBox::new());
        self.needs_refresh = false;
    }

    /// What `eff_cursor_up` does: the value `s1` and the state `r` it leaves from `s0` with the key `k`.
    pub open spec fn eff_cursor_up_post(s0: Navigator, s1: Navigator, k: Key, r: String) -> bool {
        &&& s1.wf()
        &&& r@ == INIT@
        &&& s1.rb.cursor.row == (if s0.rb.cursor.row > 0 { s0.rb.cursor.row - 1 } else { 0 })
        &&& s1.rb.cursor.col == s0.rb.cursor.col
        &&& crate::read_buffer::same_but_cursor(s0.rb, s1.rb)
        &&& s1.list == s0.list
        &&& s1.current == s0.current
        &&& s1.needs_refresh == s0.needs_refresh
    }

    pub fn eff_cursor_up(&mut self, k: Key) -> (r: String)
        requires
            old(self).wf(),
        ensures
            Self::eff_cursor_up_post(*old(self), *final(self), k, r),
    {
        self.rb.eff_cursor_up(k)
    }

    /// What `eff_cursor_down` does: the value `s1` and the state `r` it leaves from `s0` with the key `k`.
    pub open spec fn eff_cursor_down_post(s0: Navigator, s1: Navigator, k: Key, r: String) -> bool {
        &&& s1.wf()
        &&& r@ == INIT@
        &&& s1.rb.cursor.row == (if s0.rb.cursor.row < s0.rb.buf@.len() - 1 {
            s0.rb.cursor.row + 1
        } else {
            s0.rb.cursor.row as int
        })
        &&& s1.rb.cursor.col == s0.rb.cursor.col
        &&& crate::read_buffer::same_but_cursor(s0.rb, s1.rb)
        &&& s1.list == s0.list
        &&& s1.current == s0.current
        &&& s1.needs_refresh == s0.needs_refresh
    }

    pub fn eff_cursor_down(&mut self, k: Key) -> (r: String)
        requires
            old(self).wf(),
        ensures
            Self::eff_cursor_down_post(*old(self), *final(self), k, r),
    {
        self.rb.eff_cursor_down(k)
    }

    /// What `eff_select` does: the value `s1` and the state `r` it leaves from `s0` with the key `_k`.
    pub open spec fn eff_select_post(s0: Navigator, s1: Navigator, _k: Key, r: String) -> bool {
        &&& r@ == INIT@
        &&& s1.spec_list() == to_front(s0.spec_list(), s0.rb.cursor.row as int)
        &&& s1.current matches Some(p) && p@ == s0.spec_list()[s0.rb.cursor.row as int]
        &&& s1.rb == s0.rb
    }

    /// Shows the page on the cursor's row.
    pub fn eff_select(&mut self, _k: Key) -> (r: String)
        requires
            old(self).rb.cursor.row < old(self).list@.len(),
        ensures
            Self::eff_select_post(*old(self), *final(self), _k, r),
    {
        self.select(self.rb.cursor.row);
        INIT.to_owned()
    }

    /// What `eff_select_cur_directory` does: the value `s1` and the state `r` it leaves from `s0` with the key `_k`.
    pub open spec fn eff_select_cur_directory_post(s0: Navigator, s1: Navigator, _k: Key, r: String) -> bool {
        &&& r@ == INIT@
        &&& s1.spec_list() == (match position_of_kind(s0.spec_list(), PageKind::Directory) {
            Some(i) => to_front(s0.spec_list(), i),
            None => s0.spec_list(),
        })
        &&& position_of_kind(s0.spec_list(), PageKind::Directory) is None ==> s1.current == s0.current
        &&& s1.rb == s0.rb
    }

    /// Shows the latest directory page, if any.
    pub fn eff_select_cur_directory(&mut self, _k: Key) -> (r: String)
        ensures
            Self::eff_select_cur_directory_post(*old(self), *final(self), _k, r),
    {
        self.select_kind(PageKind::Directory);
        INIT.to_owned()
    }

    /// What `eff_select_cur_buffer` does: the value `s1` and the state `r` it leaves from `s0` with the key `_k`.
    pub open spec fn eff_select_cur_buffer_post(s0: Navigator, s1: Navigator, _k: Key, r: String) -> bool {
        &&& r@ == INIT@
        &&& s1.spec_list() == (match position_of_kind(s0.spec_list(), PageKind::Buffer) {
            Some(i) => to_front(s0.spec_list(), i),
            None => s0.spec_list(),
        })
        &&& position_of_kind(s0.spec_list(), PageKind::Buffer) is None ==> s1.current == s0.current
        &&& s1.rb == s0.rb
    }

    /// Shows the latest buffer page, if any.
    pub fn eff_select_cur_buffer(&mut self, _k: Key) -> (r: String)
        ensures
            Self::eff_select_cur_buffer_post(*old(self), *final(self), _k, r),
    {
        self.select_kind(PageKind::Buffer);
        INIT.to_owned()
    }

    fn select_kind(&mut self, k: PageKind)
        ensures
            final(self).spec_list() == (match position_of_kind(old(self).spec_list(), k) {
                Some(i) => to_front(old(self).spec_list(), i),
                None => old(self).spec_list(),
            }),
            position_of_kind(old(self).spec_list(), k) is None ==> final(self).current == old(self).current,
            final(self).rb == old(self).rb,
    {
        let ghost l0 = self.spec_list();
        let mut i: usize = 0;
        while i < self.list.len()
            invariant
                i <= self.list@.len(),
                *self == *old(self),
                l0 == self.spec_list(),
                forall|j: int| 0 <= j < i ==> l0[j].0 != k,
            decreases self.list@.len() - i,
        {
            if self.list[i].kind == k {
                assert(l0[i as int].0 == k);
                let ghost c = choose|q: int| 0 <= q < l0.len() && l0[q].0 == k && forall|j: int| 0 <= j < q ==> l0[j].0 != k;
                proof {
                    if c < i {
                    } else if c > i {
                    }
                    assert(c == i);
                }
                self.select(i);
                return;
            }
            i = i + 1;
        }
    }

    /// What `eff_close_selected` does: the value `s1` and the state `r` it leaves from `s0` with the key `_k`.
    pub open spec fn eff_close_selected_post(s0: Navigator, s1: Navigator, _k: Key, r: String) -> bool {
        &&& r@ == INIT@
        &&& s1.spec_list() == s0.spec_list().remove(s0.rb.cursor.row as int)
        &&& s1.current == s0.current
        &&& s1.rb == s0.rb
    }

    /// Closes the page on the cursor's row.
    pub fn eff_close_selected(&mut self, _k: Key) -> (r: String)
        requires
            old(self).rb.cursor.row < old(self).list@.len(),
        ensures
            Self::eff_close_selected_post(*old(self), *final(self), _k, r),
    {
        self.delete(self.rb.cursor.row);
        INIT.to_owned()
    }
}

/// A status as a line of the list.
pub open spec fn status_line(s: Seq<char>) -> Seq<BufElem> {
    crate::edit_buffer::snippet::char_elems(s).push(BufElem::Eol)
}

/// The actions that keys trigger on the navigator.
#[derive(Debug, Clone, Copy, PartialEq, Eq, Structural)]
pub enum NavAction {
    Read(ReadAction),
    Select,
    SelectCurDirectory,
    SelectCurBuffer,
    CloseSelected,
}

impl FromReadAction for NavAction {
    open spec fn spec_from_read(a: ReadAction) -> Self {
        NavAction::Read(a)
    }

    fn from_read(a: ReadAction) -> (r: Self) {
        NavAction::Read(a)
    }
}

impl Effect<NavAction> for Navigator {
    open spec fn inv(&self) -> bool {
        self.wf()
    }

    open spec fn can_run(&self, a: NavAction, k: Key) -> bool {
        match a {
            NavAction::Read(r) => self.rb.can_run_read(r, k),
            NavAction::Select | NavAction::CloseSelected => self.rb.cursor.row < self.list@.len(),
            _ => true,
        }
    }

    /// Running `a` has the effect bound to it: the read buffer's for a read
    /// action, else that of the `eff_*` function.
    open spec fn leads_to(&self, a: NavAction, k: Key, after: Self, to: String) -> bool {
        match a {
            NavAction::Read(ra) => ReadBuffer::read_leads_to(self.rb, ra, k, after.rb, to) && after == (Navigator {
                rb: after.rb,
                ..*self
            }),
            NavAction::Select => Navigator::eff_select_post(*self, after, k, to),
            NavAction::SelectCurDirectory => Navigator::eff_select_cur_directory_post(*self, after, k, to),
            NavAction::SelectCurBuffer => Navigator::eff_select_cur_buffer_post(*self, after, k, to),
            NavAction::CloseSelected => Navigator::eff_close_selected_post(*self, after, k, to),
        }
    }

    fn ready(&self, a: NavAction, k: Key) -> (r: bool) {
        match a {
            NavAction::Read(ra) => self.rb.ready_read(ra, k),
            NavAction::Select | NavAction::CloseSelected => self.rb.cursor.row < self.list.len(),
            _ => true,
        }
    }

    fn run(&mut self, a: NavAction, k: Key) -> (r: String) {
        match a {
            NavAction::Read(ra) => self.rb.run_read(ra, k),
            NavAction::Select => self.eff_select(k),
            NavAction::SelectCurDirectory => self.eff_select_cur_directory(k),
            NavAction::SelectCurBuffer => self.eff_select_cur_buffer(k),
            NavAction::CloseSelected => self.eff_close_selected(k),
        }
    }
}

/// The key bindings of the navigator beyond those of its read buffer.
pub open spec fn nav_table() -> Seq<(Seq<char>, Key, NavAction)> {
    seq![
        (INIT@, Key::Char('\n'), NavAction::Select),
        (INIT@, Key::Char('h'), NavAction::SelectCurDirectory),
        (INIT@, Key::Char('l'), NavAction::SelectCurBuffer),
        (INIT@, Key::Char('d'), NavAction::CloseSelected),
    ]
}

/// The controller of the navigator: the bindings of its read buffer, then
/// those of `nav_table`.
pub fn mk_controller() -> (r: ControllerFSM<NavAction>)
    ensures
        r.g.inv(),
        r.cur@ == INIT@,
        r.g@ == with_edges(read_graph::<NavAction>(), nav_table()),
{
    let mut g: Graph<NavAction> = Graph::new();
    add_edges(&mut g);
    proof {
        reveal_strlit("Normal");
        reveal_strlit("Jump");
        reveal_strlit("Search");
        crate::read_buffer::lemma_modes_distinct();
        assert(g@ =~= read_graph::<NavAction>());
    }
    let mut t: Vec<(&str, Key, NavAction)> = Vec::new();
    t.push((INIT, Key::Char('\n'), NavAction::Select));
    t.push((INIT, Key::Char('h'), NavAction::SelectCurDirectory));
    t.push((INIT, Key::Char('l'), NavAction::SelectCurBuffer));
    t.push((INIT, Key::Char('d'), NavAction::CloseSelected));
    assert(table_view(t@) =~= nav_table());
    g.add_table(&t);
    ControllerFSM::new(INIT, g)
}

} // verus!
