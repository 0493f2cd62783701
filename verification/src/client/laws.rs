//! What every operation of the client keeps, and what one operation undoes
//! of another.
use vstd::prelude::*;
use crate::client::{
    enqueue_steps, lemma_enqueue_counter_grows, ids_fresh, is_first_id, with_status, ActiveTab, AppModel, DownloadModel,
    DownloadStatusModel, Key, SearchResultModel, LOG_DROP, LOG_LIMIT, SearchInputMode, trimmed, is_white_space,
    leading_white_space, trailing_white_space,
};
use crate::events::{AppEventModel, NetCommandModel};

verus! {

/// Setting a status keeps every download where it was, with its id.
proof fn lemma_with_status_keeps_ids(ds: Seq<DownloadModel>, id: usize, status: DownloadStatusModel)
    ensures
        with_status(ds, id, status).len() == ds.len(),
        forall|i: int| 0 <= i < ds.len() ==> #[trigger] with_status(ds, id, status)[i].id == ds[i].id,
{
    if exists|i: int| is_first_id(ds, id, i) {
        let k = choose|i: int| is_first_id(ds, id, i);
        assert forall|i: int| 0 <= i < ds.len() implies #[trigger] with_status(ds, id, status)[i].id == ds[i].id by {
            if i != k {
                assert(with_status(ds, id, status)[i] == ds[i]);
            }
        }
    }
}

/// Enqueuing keeps the downloads there were, hands out ids from the counter
/// on, and keeps the ids fresh.
proof fn lemma_enqueue_keeps_ids(
    results: Seq<SearchResultModel>,
    ds: Seq<DownloadModel>,
    counter: int,
    idx: Seq<usize>,
)
    requires
        0 <= counter,
        ids_fresh(ds, counter),
        enqueue_steps(results, ds, counter, idx).1 <= usize::MAX,
    ensures
        ({
            let r = enqueue_steps(results, ds, counter, idx);
            &&& r.0.len() >= ds.len()
            &&& r.1 >= counter
            &&& ids_fresh(r.0, r.1)
        }),
    decreases idx.len(),
{
    if idx.len() > 0 {
        lemma_enqueue_counter_grows(results, ds, counter, idx, idx.len() - 1);
        assert(idx.take(idx.len() - 1) =~= idx.drop_last());
        lemma_enqueue_keeps_ids(results, ds, counter, idx.drop_last());
        let (d1, c1, k1, n1) = enqueue_steps(results, ds, counter, idx.drop_last());
        let i = idx.last();
        if i < results.len() {
            let r = results[i as int];
            let x = DownloadModel {
                id: c1 as usize,
                username: r.username,
                filename: r.filename,
                size: r.size,
                status: DownloadStatusModel::Queued,
            };
            let d2 = d1.push(x);
            assert(d2[d1.len() as int] == x);
            assert forall|a: int| 0 <= a < d2.len() implies #[trigger] d2[a].id < c1 + 1 by {
                if a < d1.len() {
                    assert(d2[a] == d1[a]);
                    assert(d1[a].id < c1);
                }
            }
            assert forall|a: int, b: int| 0 <= a < b < d2.len() implies #[trigger] d2[a].id != #[trigger] d2[b].id by {
                assert(d2[a] == d1[a]);
                assert(d1[a].id < c1);
                if b < d1.len() {
                    assert(d2[b] == d1[b]);
                    assert(d1[a].id != d1[b].id);
                }
            }
        }
    }
}

/// A state whose selections point into their lists, whose log is within its
/// limit and whose downloads have ids of their own below the counter stays
/// so after any network event.
pub proof fn lemma_handle_event_keeps_wf(m: AppModel, ev: AppEventModel)
    requires
        m.wf(),
    ensures
        m.handle_event(ev).wf(),
{
    match ev {
        AppEventModel::SearchResults { token, results } => {
            assert(m.on_search_results(token, results).wf());
        },
        AppEventModel::DownloadProgress { id, downloaded, total } => {
            lemma_with_status_keeps_ids(m.downloads, id, DownloadStatusModel::InProgress { downloaded, total });
        },
        AppEventModel::DownloadDone { id } => {
            lemma_with_status_keeps_ids(m.downloads, id, DownloadStatusModel::Done);
            assert(m.set_download_status(id, DownloadStatusModel::Done).wf());
        },
        AppEventModel::DownloadFailed { id, reason } => {
            lemma_with_status_keeps_ids(m.downloads, id, DownloadStatusModel::Failed(reason));
        },
        AppEventModel::TransferDenied { id, reason } => {
            lemma_with_status_keeps_ids(m.downloads, id, DownloadStatusModel::Failed("denied: "@ + reason));
        },
        _ => {},
    }
}

/// A well-formed state stays so after a key typed into the search box.
pub proof fn lemma_editing_key_keeps_wf(m: AppModel, key: Key)
    requires
        m.wf(),
    ensures
        m.handle_editing_key(key).0.wf(),
{
}

/// A well-formed state stays so after a key press outside the search box,
/// wherever the press can be handled without overflow.
pub proof fn lemma_global_key_keeps_wf(m: AppModel, key: Key)
    requires
        m.wf(),
        m.global_key_ok(key),
    ensures
        m.handle_global_key(key).0.wf(),
{
    let search = m.active_tab == ActiveTab::Search;
    if key == Key::Enter && search && !m.log_focused {
        if m.selected_for_download.len() > 0 {
            lemma_enqueue_keeps_ids(
                m.search_results,
                m.downloads,
                m.download_id_counter as int,
                m.selected_for_download,
            );
        }
    }
    if key == Key::Char('d') && !search && !m.log_focused {
        if let Some(idx) = m.download_selection {
            let ds = m.downloads.remove(idx as int);
            assert forall|a: int| 0 <= a < ds.len() implies #[trigger] ds[a].id < m.download_id_counter by {
                if a < idx {
                    assert(ds[a] == m.downloads[a]);
                } else {
                    assert(ds[a] == m.downloads[a + 1]);
                }
            }
            assert forall|a: int, b: int| 0 <= a < b < ds.len() implies #[trigger] ds[a].id != #[trigger] ds[b].id by {
                let a2 = if a < idx { a } else { a + 1 };
                let b2 = if b < idx { b } else { b + 1 };
                assert(ds[a] == m.downloads[a2]);
                assert(ds[b] == m.downloads[b2]);
            }
        }
    }
}

/// The start-up state is well formed.
pub proof fn lemma_initial_wf()
    ensures
        AppModel::initial().wf(),
{
}

/// In a well-formed state every key press can be handled, but for Enter on
/// the search tab, which needs room for the new download ids.
pub proof fn lemma_wf_key_ok(m: AppModel, key: Key)
    requires
        m.wf(),
        m.search_results.len() <= usize::MAX,
        m.downloads.len() <= usize::MAX,
        !(key == Key::Enter && m.active_tab == ActiveTab::Search),
    ensures
        m.global_key_ok(key),
{
}

/// Moving the highlight down and then up gives back the state.
pub proof fn lemma_search_next_then_previous(m: AppModel)
    requires
        m.search_selection is Some,
        m.wf(),
        m.search_results.len() <= usize::MAX,
    ensures
        m.search_next().search_previous() == m,
{
    let i = m.search_selection->0 as int;
    let n = m.search_results.len() as int;
    assert((i + 1) % n == if i + 1 == n { 0 } else { i + 1 }) by (nonlinear_arith)
        requires
            0 <= i < n,
    ;
    if i + 1 < n {
        assert((i + 2) % n == if i + 2 == n { 0 } else { i + 2 }) by (nonlinear_arith)
            requires
                0 <= i + 1 < n,
        ;
    }
    assert(n % n == 0 && i % n == i) by (nonlinear_arith)
        requires
            0 <= i < n,
    ;
}

/// Moving the highlight up and then down gives back the state.
pub proof fn lemma_search_previous_then_next(m: AppModel)
    requires
        m.search_selection is Some,
        m.wf(),
        m.search_results.len() <= usize::MAX,
    ensures
        m.search_previous().search_next() == m,
{
    let i = m.search_selection->0 as int;
    let n = m.search_results.len() as int;
    assert((i + 1) % n == if i + 1 == n { 0 } else { i + 1 }) by (nonlinear_arith)
        requires
            0 <= i < n,
    ;
    if i + 1 < n {
        assert((i + 2) % n == if i + 2 == n { 0 } else { i + 2 }) by (nonlinear_arith)
            requires
                0 <= i + 1 < n,
        ;
    }
    assert(n % n == 0 && i % n == i) by (nonlinear_arith)
        requires
            0 <= i < n,
    ;
}

/// Moving the download highlight down and then up gives back the state.
pub proof fn lemma_download_next_then_previous(m: AppModel)
    requires
        m.download_selection is Some,
        m.wf(),
        m.downloads.len() <= usize::MAX,
    ensures
        m.download_next().download_previous() == m,
{
    let i = m.download_selection->0 as int;
    let n = m.downloads.len() as int;
    assert((i + 1) % n == if i + 1 == n { 0 } else { i + 1 }) by (nonlinear_arith)
        requires
            0 <= i < n,
    ;
    if i + 1 < n {
        assert((i + 2) % n == if i + 2 == n { 0 } else { i + 2 }) by (nonlinear_arith)
            requires
                0 <= i + 1 < n,
        ;
    }
    assert(n % n == 0 && i % n == i) by (nonlinear_arith)
        requires
            0 <= i < n,
    ;
}

/// Moving the download highlight up and then down gives back the state.
pub proof fn lemma_download_previous_then_next(m: AppModel)
    requires
        m.download_selection is Some,
        m.wf(),
        m.downloads.len() <= usize::MAX,
    ensures
        m.download_previous().download_next() == m,
{
    let i = m.download_selection->0 as int;
    let n = m.downloads.len() as int;
    assert((i + 1) % n == if i + 1 == n { 0 } else { i + 1 }) by (nonlinear_arith)
        requires
            0 <= i < n,
    ;
    if i + 1 < n {
        assert((i + 2) % n == if i + 2 == n { 0 } else { i + 2 }) by (nonlinear_arith)
            requires
                0 <= i + 1 < n,
        ;
    }
    assert(n % n == 0 && i % n == i) by (nonlinear_arith)
        requires
            0 <= i < n,
    ;
}

/// Switching tabs twice gives back the state.
pub proof fn lemma_tab_twice(m: AppModel)
    ensures
        m.handle_global_key(Key::Tab).0.handle_global_key(Key::Tab).0 == m,
{
}

/// Toggling a result that was not selected for download, and toggling it
/// again, leaves the download selection as it was.
pub proof fn lemma_toggle_twice(m: AppModel)
    requires
        m.wf(),
        m.search_selection matches Some(i) && !m.selected_for_download.contains(i),
    ensures
        m.toggle_selected_for_download().toggle_selected_for_download().selected_for_download
            == m.selected_for_download,
{
    let i = m.search_selection->0;
    let s = m.selected_for_download;
    let t = s.push(i);
    assert(!(exists|p: int| crate::client::is_first_index(s, i, p)));
    assert(crate::client::is_first_index(t, i, s.len() as int));
    let m1 = m.toggle_selected_for_download();
    assert(m1.selected_for_download == t);
    let p = choose|p: int| crate::client::is_first_index(t, i, p);
    assert(p == s.len());
    assert(t.remove(p) =~= s);
}

/// After a new search, results that answer any other token change nothing.
pub proof fn lemma_stale_results_ignored(m: AppModel, query: Seq<char>, token: u32, results: Seq<SearchResultModel>)
    requires
        token != m.search_token_counter,
    ensures
        m.send_search(query).0.on_search_results(token, results) == m.send_search(query).0,
{
}

/// `l` focuses the log pane and `l` again leaves it: the state comes back.
pub proof fn lemma_log_focus_twice(m: AppModel)
    requires
        m.wf(),
        !m.log_focused,
    ensures
        m.handle_global_key(Key::Char('l')).0.handle_global_key(Key::Char('l')).0 == m,
{
}

/// With the log pane focused, `f` twice gives back the state.
pub proof fn lemma_fullscreen_twice(m: AppModel)
    requires
        m.log_focused,
    ensures
        m.handle_global_key(Key::Char('f')).0.handle_global_key(Key::Char('f')).0 == m,
{
}

/// While the log pane is focused, no key but quitting changes the results,
/// the downloads or the selections, and none sends a command.
pub proof fn lemma_focused_log_keeps_lists(m: AppModel, key: Key)
    requires
        m.log_focused,
        key != Key::Char('q') && key != Key::Char('Q'),
    ensures
        m.handle_global_key(key).0.search_selection == m.search_selection,
        m.handle_global_key(key).0.download_selection == m.download_selection,
        m.handle_global_key(key).0.selected_for_download == m.selected_for_download,
        m.handle_global_key(key).0.downloads == m.downloads,
        m.handle_global_key(key).2.len() == 0,
{
}

/// Results for the current search are added after the ones already there:
/// every result keeps its index, so the highlight and the download
/// selection still point at the same files. Results for any other search
/// change nothing.
pub proof fn lemma_results_appended(m: AppModel, token: u32, rs: Seq<SearchResultModel>)
    ensures
        m.current_search_token == Some(token) ==> {
            let n = m.on_search_results(token, rs);
            &&& n.search_results == m.search_results + rs
            &&& n.search_results.len() == m.search_results.len() + rs.len()
            &&& forall|i: int| 0 <= i < m.search_results.len() ==> #[trigger] n.search_results[i] == m.search_results[i]
            &&& forall|j: int| 0 <= j < rs.len() ==> n.search_results[m.search_results.len() + j] == #[trigger] rs[j]
            &&& n.selected_for_download == m.selected_for_download
            &&& m.search_results.len() > 0 ==> n.search_selection == m.search_selection
        },
        m.current_search_token != Some(token) ==> m.on_search_results(token, rs) == m,
        m.handle_event(AppEventModel::SearchResults { token, results: rs }).search_results == if m.current_search_token
            == Some(token) {
            m.search_results + rs
        } else {
            m.search_results
        },
{
}

/// A new log line goes last; the lines before it are the newest of the old
/// ones, all of them unless the log grew past its limit, when the oldest
/// are dropped.
pub proof fn lemma_log_line_appended(m: AppModel, msg: Seq<char>)
    ensures
        ({
            let old_len = m.log_messages.len();
            let l = m.push_log(msg).log_messages;
            &&& l.len() == if old_len + 1 > LOG_LIMIT { old_len + 1 - LOG_DROP } else { old_len + 1int }
            &&& l[l.len() - 1] == msg
            &&& forall|i: int| 0 <= i < l.len() - 1 ==> #[trigger] l[i] == m.log_messages[old_len + 1 - l.len() + i]
        }),
{
}

/// Moving the highlight down goes to the next result, or back to the first
/// after the last; with none highlighted it goes to the first.
pub proof fn lemma_search_next_moves(m: AppModel)
    requires
        m.search_results.len() > 0,
        m.search_results.len() <= usize::MAX,
        m.wf(),
    ensures
        m.search_next().search_selection == match m.search_selection {
            Some(i) => if i + 1 < m.search_results.len() { Some((i + 1) as usize) } else { Some(0usize) },
            None => Some(0usize),
        },
        m.search_next().search_results == m.search_results,
        m.search_next().selected_for_download == m.selected_for_download,
{
    if let Some(i) = m.search_selection {
        let n = m.search_results.len() as int;
        assert((i + 1) % n == if i + 1 == n { 0 } else { i + 1 }) by (nonlinear_arith)
            requires
                0 <= i < n,
        ;
    }
}

/// Moving the highlight up goes to the previous result, or to the last from
/// the first; with none highlighted it goes to the first.
pub proof fn lemma_search_previous_moves(m: AppModel)
    requires
        m.search_results.len() > 0,
        m.search_results.len() <= usize::MAX,
    ensures
        m.search_previous().search_selection == match m.search_selection {
            Some(i) => if i > 0 { Some((i - 1) as usize) } else { Some((m.search_results.len() - 1) as usize) },
            None => Some(0usize),
        },
        m.search_previous().search_results == m.search_results,
{
}

/// Moving the download highlight down goes to the next download, or back to
/// the first after the last; with none highlighted it goes to the first.
pub proof fn lemma_download_next_moves(m: AppModel)
    requires
        m.downloads.len() > 0,
        m.downloads.len() <= usize::MAX,
        m.wf(),
    ensures
        m.download_next().download_selection == match m.download_selection {
            Some(i) => if i + 1 < m.downloads.len() { Some((i + 1) as usize) } else { Some(0usize) },
            None => Some(0usize),
        },
        m.download_next().downloads == m.downloads,
{
    if let Some(i) = m.download_selection {
        let n = m.downloads.len() as int;
        assert((i + 1) % n == if i + 1 == n { 0 } else { i + 1 }) by (nonlinear_arith)
            requires
                0 <= i < n,
        ;
    }
}

/// Moving the download highlight up goes to the previous download, or to
/// the last from the first; with none highlighted it goes to the first.
pub proof fn lemma_download_previous_moves(m: AppModel)
    requires
        m.downloads.len() > 0,
        m.downloads.len() <= usize::MAX,
    ensures
        m.download_previous().download_selection == match m.download_selection {
            Some(i) => if i > 0 { Some((i - 1) as usize) } else { Some((m.downloads.len() - 1) as usize) },
            None => Some(0usize),
        },
        m.download_previous().downloads == m.downloads,
{
}

/// Removing the highlighted download takes out exactly that one: the ones
/// before it stay where they were and the ones after it move up by one.
pub proof fn lemma_remove_takes_the_highlighted(m: AppModel)
    requires
        m.download_selection matches Some(i) && i < m.downloads.len(),
    ensures
        ({
            let i = m.download_selection->0 as int;
            let ds = m.remove_selected_download().downloads;
            &&& ds.len() == m.downloads.len() - 1
            &&& forall|j: int| 0 <= j < i ==> #[trigger] ds[j] == m.downloads[j]
            &&& forall|j: int| i <= j < ds.len() ==> #[trigger] ds[j] == m.downloads[j + 1]
        }),
{
}

/// A value that occurs in a sequence has a first occurrence.
proof fn lemma_first_index_exists(s: Seq<usize>, v: usize, k: int)
    requires
        0 <= k < s.len(),
        s[k] == v,
    ensures
        exists|p: int| crate::client::is_first_index(s, v, p),
    decreases k,
{
    if exists|j: int| 0 <= j < k && s[j] == v {
        let j = choose|j: int| 0 <= j < k && s[j] == v;
        lemma_first_index_exists(s, v, j);
    } else {
        assert(crate::client::is_first_index(s, v, k));
    }
}

/// Toggling a result that is not selected for download selects it, last;
/// toggling one that is drops its first occurrence and keeps the others in
/// order.
pub proof fn lemma_toggle_selects(m: AppModel)
    requires
        m.search_selection matches Some(i) && i < m.search_results.len(),
    ensures
        ({
            let i = m.search_selection->0;
            let s = m.selected_for_download;
            let t = m.toggle_selected_for_download().selected_for_download;
            &&& !s.contains(i) ==> t == s.push(i)
            &&& s.contains(i) ==> exists|p: int|
                0 <= p < s.len() && s[p] == i && (forall|j: int| 0 <= j < p ==> s[j] != i) && #[trigger] t.len()
                    == s.len() - 1 && (forall|j: int| 0 <= j < p ==> t[j] == s[j]) && (forall|j: int|
                    p <= j < t.len() ==> t[j] == s[j + 1])
        }),
{
    let i = m.search_selection->0;
    let s = m.selected_for_download;
    if s.contains(i) {
        let q = choose|q: int| 0 <= q < s.len() && s[q] == i;
        lemma_first_index_exists(s, i, q);
    } else {
        assert(!(exists|p: int| crate::client::is_first_index(s, i, p)));
    }
}

/// The selected indices that name a search result, in selection order.
pub open spec fn valid_selection(results: Seq<SearchResultModel>, idx: Seq<usize>) -> Seq<usize> {
    idx.filter(|x: usize| (x as int) < results.len())
}

/// Enqueuing adds one queued download per selected index that names a
/// result, after the downloads there were, in selection order, with ids
/// counted on from the counter; the commands match the new downloads one
/// for one.
proof fn lemma_enqueue_shape(results: Seq<SearchResultModel>, ds: Seq<DownloadModel>, counter: int, idx: Seq<usize>)
    ensures
        ({
            let r = enqueue_steps(results, ds, counter, idx);
            let v = valid_selection(results, idx);
            &&& r.3 == v.len()
            &&& r.0.len() == ds.len() + v.len()
            &&& r.2.len() == v.len()
            &&& r.1 == counter + v.len()
            &&& forall|i: int| 0 <= i < ds.len() ==> #[trigger] r.0[i] == ds[i]
            &&& forall|j: int|
                0 <= j < v.len() ==> #[trigger] r.0[ds.len() + j] == (DownloadModel {
                    id: (counter + j) as usize,
                    username: results[v[j] as int].username,
                    filename: results[v[j] as int].filename,
                    size: results[v[j] as int].size,
                    status: DownloadStatusModel::Queued,
                })
            &&& forall|j: int|
                0 <= j < v.len() ==> #[trigger] r.2[j] == (NetCommandModel::Download {
                    id: (counter + j) as usize,
                    username: results[v[j] as int].username,
                    filename: results[v[j] as int].filename,
                    size: results[v[j] as int].size,
                })
        }),
    decreases idx.len(),
{
    reveal(Seq::filter);
    if idx.len() > 0 {
        lemma_enqueue_shape(results, ds, counter, idx.drop_last());
        let v0 = valid_selection(results, idx.drop_last());
        let v = valid_selection(results, idx);
        let r1 = enqueue_steps(results, ds, counter, idx.drop_last());
        let r = enqueue_steps(results, ds, counter, idx);
        if (idx.last() as int) < results.len() {
            assert(v == v0.push(idx.last()));
            assert forall|j: int| 0 <= j < v.len() implies #[trigger] r.0[ds.len() + j] == (DownloadModel {
                id: (counter + j) as usize,
                username: results[v[j] as int].username,
                filename: results[v[j] as int].filename,
                size: results[v[j] as int].size,
                status: DownloadStatusModel::Queued,
            }) by {
                if j < v0.len() {
                    assert(r.0[ds.len() + j] == r1.0[ds.len() + j]);
                }
            }
            assert forall|j: int| 0 <= j < v.len() implies #[trigger] r.2[j] == (NetCommandModel::Download {
                id: (counter + j) as usize,
                username: results[v[j] as int].username,
                filename: results[v[j] as int].filename,
                size: results[v[j] as int].size,
            }) by {
                if j < v0.len() {
                    assert(r.2[j] == r1.2[j]);
                }
            }
            assert forall|i: int| 0 <= i < ds.len() implies #[trigger] r.0[i] == ds[i] by {
                assert(r.0[i] == r1.0[i]);
            }
        } else {
            assert(v == v0);
        }
    } else {
        assert(valid_selection(results, idx) =~= Seq::<usize>::empty());
    }
}

/// Enter on the search tab enqueues, in selection order, one download per
/// selected index that names a result: the downloads there were stay first
/// and unchanged, each new one is queued under the next id with the user,
/// file and size of its result, one command per new download asks for it,
/// and the selection is cleared.
pub proof fn lemma_enqueue_in_selection_order(m: AppModel)
    requires
        m.selected_for_download.len() > 0,
        m.enqueue_id_end() <= usize::MAX,
    ensures
        ({
            let (n, cmds) = m.enqueue_selected_downloads();
            let v = valid_selection(m.search_results, m.selected_for_download);
            let k = m.downloads.len();
            let c = m.download_id_counter as int;
            &&& n.downloads.len() == k + v.len()
            &&& forall|i: int| 0 <= i < k ==> #[trigger] n.downloads[i] == m.downloads[i]
            &&& forall|j: int|
                0 <= j < v.len() ==> #[trigger] n.downloads[k + j] == (DownloadModel {
                    id: (c + j) as usize,
                    username: m.search_results[v[j] as int].username,
                    filename: m.search_results[v[j] as int].filename,
                    size: m.search_results[v[j] as int].size,
                    status: DownloadStatusModel::Queued,
                })
            &&& cmds.len() == v.len()
            &&& forall|j: int|
                0 <= j < v.len() ==> #[trigger] cmds[j] == (NetCommandModel::Download {
                    id: (c + j) as usize,
                    username: m.search_results[v[j] as int].username,
                    filename: m.search_results[v[j] as int].filename,
                    size: m.search_results[v[j] as int].size,
                })
            &&& n.download_id_counter == c + v.len()
            &&& n.selected_for_download.len() == 0
            &&& n.search_results == m.search_results
        }),
{
    lemma_enqueue_shape(m.search_results, m.downloads, m.download_id_counter as int, m.selected_for_download);
}


/// Setting the status of the download with this id, where no two downloads
/// share an id, changes that one download's status and nothing else.
proof fn lemma_with_status_hits_its_download(ds: Seq<DownloadModel>, id: usize, status: DownloadStatusModel)
    requires
        forall|i: int, j: int| 0 <= i < j < ds.len() ==> #[trigger] ds[i].id != #[trigger] ds[j].id,
    ensures
        with_status(ds, id, status).len() == ds.len(),
        forall|i: int|
            0 <= i < ds.len() ==> #[trigger] with_status(ds, id, status)[i] == if ds[i].id == id {
                DownloadModel { status, ..ds[i] }
            } else {
                ds[i]
            },
{
    if exists|i: int| is_first_id(ds, id, i) {
        let k = choose|i: int| is_first_id(ds, id, i);
        assert forall|i: int| 0 <= i < ds.len() implies #[trigger] with_status(ds, id, status)[i] == if ds[i].id == id {
            DownloadModel { status, ..ds[i] }
        } else {
            ds[i]
        } by {
            if i != k && ds[i].id == id {
                if i < k {
                    assert(ds[i].id != id);
                } else {
                    assert(ds[k].id != ds[i].id);
                }
            }
        }
    } else {
        assert forall|i: int| 0 <= i < ds.len() implies ds[i].id != id by {
            if ds[i].id == id {
                let j = choose|j: int| 0 <= j <= i && ds[j].id == id && forall|l: int| 0 <= l < j ==> ds[l].id != id;
                assert(is_first_id(ds, id, j));
            }
        }
    }
}

/// A progress report, a completion, a failure or a refusal for the
/// download with this id changes the status of that download, to the one
/// the event reports, and of no other: every download keeps its place, id,
/// user, file and size.
pub proof fn lemma_status_event_hits_its_download(
    m: AppModel,
    id: usize,
    downloaded: u64,
    total: u64,
    reason: Seq<char>,
)
    requires
        m.wf(),
    ensures
        ({
            let ds = m.downloads;
            let progress = m.handle_event(AppEventModel::DownloadProgress { id, downloaded, total }).downloads;
            let done = m.handle_event(AppEventModel::DownloadDone { id }).downloads;
            let failed = m.handle_event(AppEventModel::DownloadFailed { id, reason }).downloads;
            let denied = m.handle_event(AppEventModel::TransferDenied { id, reason }).downloads;
            &&& progress.len() == ds.len() && done.len() == ds.len()
            &&& failed.len() == ds.len() && denied.len() == ds.len()
            &&& forall|i: int|
                0 <= i < ds.len() ==> #[trigger] progress[i] == if ds[i].id == id {
                    DownloadModel { status: DownloadStatusModel::InProgress { downloaded, total }, ..ds[i] }
                } else {
                    ds[i]
                }
            &&& forall|i: int|
                0 <= i < ds.len() ==> #[trigger] done[i] == if ds[i].id == id {
                    DownloadModel { status: DownloadStatusModel::Done, ..ds[i] }
                } else {
                    ds[i]
                }
            &&& forall|i: int|
                0 <= i < ds.len() ==> #[trigger] failed[i] == if ds[i].id == id {
                    DownloadModel { status: DownloadStatusModel::Failed(reason), ..ds[i] }
                } else {
                    ds[i]
                }
            &&& forall|i: int|
                0 <= i < ds.len() ==> #[trigger] denied[i] == if ds[i].id == id {
                    DownloadModel { status: DownloadStatusModel::Failed("denied: "@ + reason), ..ds[i] }
                } else {
                    ds[i]
                }
        }),
{
    let ds = m.downloads;
    lemma_with_status_hits_its_download(ds, id, DownloadStatusModel::InProgress { downloaded, total });
    lemma_with_status_hits_its_download(ds, id, DownloadStatusModel::Done);
    lemma_with_status_hits_its_download(ds, id, DownloadStatusModel::Failed(reason));
    lemma_with_status_hits_its_download(ds, id, DownloadStatusModel::Failed("denied: "@ + reason));
    let n = m.set_download_status(id, DownloadStatusModel::Done);
    if exists|i: int| is_first_id(n.downloads, id, i) {
        let i = choose|i: int| is_first_id(n.downloads, id, i);
        assert(n.push_log("Download complete: "@ + n.downloads[i].filename).downloads == n.downloads);
    }
}


/// The whitespace counted at the start of a text is whitespace, and the
/// character after it is not.
proof fn lemma_leading_white_space(s: Seq<char>)
    ensures
        leading_white_space(s) <= s.len(),
        forall|i: int| 0 <= i < leading_white_space(s) ==> is_white_space(#[trigger] s[i]),
        leading_white_space(s) < s.len() ==> !is_white_space(s[leading_white_space(s) as int]),
    decreases s.len(),
{
    if s.len() > 0 && is_white_space(s[0]) {
        let t = s.drop_first();
        lemma_leading_white_space(t);
        assert forall|i: int| 0 <= i < leading_white_space(s) implies is_white_space(#[trigger] s[i]) by {
            if i > 0 {
                assert(s[i] == t[i - 1]);
            }
        }
        if leading_white_space(s) < s.len() {
            assert(s[leading_white_space(s) as int] == t[leading_white_space(t) as int]);
        }
    }
}

/// The whitespace counted at the end of a text is whitespace, and the
/// character before it is not.
proof fn lemma_trailing_white_space(s: Seq<char>)
    ensures
        trailing_white_space(s) <= s.len(),
        forall|i: int| s.len() - trailing_white_space(s) <= i < s.len() ==> is_white_space(#[trigger] s[i]),
        trailing_white_space(s) < s.len() ==> !is_white_space(s[s.len() - 1 - trailing_white_space(s)]),
    decreases s.len(),
{
    if s.len() > 0 && is_white_space(s.last()) {
        let t = s.drop_last();
        lemma_trailing_white_space(t);
        assert forall|i: int| s.len() - trailing_white_space(s) <= i < s.len() implies is_white_space(#[trigger] s[i]) by {
            if i < s.len() - 1 {
                assert(s[i] == t[i]);
            }
        }
        if trailing_white_space(s) < s.len() {
            assert(s[s.len() - 1 - trailing_white_space(s)] == t[t.len() - 1 - trailing_white_space(t)]);
        }
    }
}

/// Trimming keeps a run of the text in place and drops only whitespace
/// around it: what is dropped before and after is whitespace, and what is
/// kept, when anything is, neither starts nor ends with whitespace.
pub proof fn lemma_trimmed_strips_white_space(s: Seq<char>)
    ensures
        exists|a: int, b: int|
            {
                &&& 0 <= a <= b <= s.len()
                &&& trimmed(s) == s.subrange(a, b)
                &&& forall|i: int| 0 <= i < a ==> is_white_space(#[trigger] s[i])
                &&& forall|i: int| b <= i < s.len() ==> is_white_space(#[trigger] s[i])
                &&& a < b ==> !is_white_space(s[a]) && !is_white_space(s[b - 1])
            },
{
    let a = leading_white_space(s) as int;
    lemma_leading_white_space(s);
    let rest = s.skip(a);
    lemma_trailing_white_space(rest);
    let b = a + rest.len() - trailing_white_space(rest);
    assert(trimmed(s) =~= s.subrange(a, b));
    assert forall|i: int| b <= i < s.len() implies is_white_space(#[trigger] s[i]) by {
        assert(s[i] == rest[i - a]);
    }
    if a < b {
        assert(s[a] == rest[0]);
        if trailing_white_space(rest) < rest.len() {
            assert(s[b - 1] == rest[rest.len() - 1 - trailing_white_space(rest)]);
        }
        assert(!is_white_space(s[a]));
    }
}

/// Enter in the search box searches for its text without the whitespace
/// around it, under the next search token: that search becomes the current
/// one and its results start from none. A text of whitespace alone sends
/// nothing and keeps the results. Either way the box is left.
pub proof fn lemma_enter_searches_trimmed_text(m: AppModel)
    ensures
        ({
            let q = trimmed(m.search_input);
            let (n, cmd) = m.handle_editing_key(Key::Enter);
            &&& n.search_input_mode == SearchInputMode::Normal
            &&& q.len() > 0 ==> {
                &&& cmd == Some(NetCommandModel::Search { token: m.search_token_counter, query: q })
                &&& n.current_search_token == Some(m.search_token_counter)
                &&& n.search_results.len() == 0
                &&& n.selected_for_download.len() == 0
                &&& n.downloads == m.downloads
            }
            &&& q.len() == 0 ==> {
                &&& cmd is None
                &&& n.current_search_token == m.current_search_token
                &&& n.search_results == m.search_results
                &&& n.selected_for_download == m.selected_for_download
                &&& n.downloads == m.downloads
            }
        }),
{
}

} // verus!
