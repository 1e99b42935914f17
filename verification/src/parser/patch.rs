//! The patch that brings the issues of the tracker in line with the todos
//! of the source code.

use vstd::prelude::*;
use vstd::string::*;

use crate::github::GitHubPatch;
use crate::parser::{
    FileTodoLocation, Issue, IssueHead, IssueMap, IssueModel, ParsingSource, issues, titles,
};
use crate::parser::issue::GitHubTodoLocation;
use crate::text::texts;
use crate::text::keyed::{distinct, lemma_position_is_first, lemma_position_some, position};

verus! {

/// The issues to open: those of `local` whose titles are not among
/// `remote_titles`, in the order of `local`.
pub open spec fn patch_create<L>(remote_titles: Seq<Seq<char>>, local: Seq<IssueModel<(), L>>)
    -> Seq<IssueModel<(), L>>
    decreases local.len(),
{
    if local.len() == 0 {
        Seq::empty()
    } else if position(remote_titles, local.last().head.title) is None {
        patch_create(remote_titles, local.drop_last()).push(local.last())
    } else {
        patch_create(remote_titles, local.drop_last())
    }
}

/// The issues to rewrite: for each issue of `local` whose title `remote`
/// holds too, in the order of `local`, the head that `remote` has for the
/// title with the body of the local issue.
pub open spec fn patch_edit<R, L>(remote: Seq<IssueModel<u64, R>>, local: Seq<IssueModel<(), L>>)
    -> Seq<IssueModel<u64, L>>
    decreases local.len(),
{
    if local.len() == 0 {
        Seq::empty()
    } else {
        match position(titles(remote), local.last().head.title) {
            Some(i) => patch_edit(remote, local.drop_last()).push(
                IssueModel { head: remote[i].head, body: local.last().body },
            ),
            None => patch_edit(remote, local.drop_last()),
        }
    }
}

/// The ids of the issues of a list, in its order.
pub open spec fn ids<L>(all: Seq<IssueModel<u64, L>>) -> Seq<u64> {
    all.map_values(|t: IssueModel<u64, L>| t.head.external_id)
}

/// The ids to close: those of the issues of `remote` that are not among the
/// ids `kept`, in the order of `remote`.
pub open spec fn patch_delete<R>(remote: Seq<IssueModel<u64, R>>, kept: Seq<u64>) -> Seq<u64>
    decreases remote.len(),
{
    if remote.len() == 0 {
        Seq::empty()
    } else if kept.contains(remote.last().head.external_id) {
        patch_delete(remote.drop_last(), kept)
    } else {
        patch_delete(remote.drop_last(), kept).push(remote.last().head.external_id)
    }
}

/// Every title of the issues to open is the title of one of the first `k`
/// local issues.
spec fn among_first<K, L, M>(chosen: Seq<IssueModel<K, L>>, local: Seq<IssueModel<(), M>>, k: int)
    -> bool {
    forall|a: int|
        0 <= a < chosen.len() ==> match #[trigger] position(titles(local), titles(chosen)[a]) {
            Some(j) => j < k,
            None => false,
        }
}

/// Tests whether a list of ids holds `id`.
fn holds_id(v: &[u64], id: u64) -> (r: bool)
    ensures
        r == v@.contains(id),
{
    let mut k: usize = 0;
    while k < v.len()
        invariant
            k <= v@.len(),
            forall|j: int| 0 <= j < k ==> v@[j] != id,
        decreases v@.len() - k,
    {
        if v[k] == id {
            return true;
        }
        k += 1;
    }
    false
}

impl IssueMap<u64, GitHubTodoLocation> {
    /// Compares the issues of the tracker, `self`, with the todos of the
    /// source code, `local`, by title. A title that only `local` holds is an
    /// issue to open; a title that both hold is an issue to rewrite, with the
    /// tracker's head and the local body; an issue of the tracker whose id
    /// belongs to no issue to rewrite is one to close.
    pub fn prepare_patch(&self, local: IssueMap<(), FileTodoLocation>) -> (patch: GitHubPatch)
        requires
            self.wf(),
            local.wf(),
        ensures
            patch.create.wf(),
            patch.edit.wf(),
            patch.create@ == patch_create(titles(self@), local@),
            patch.edit@ == patch_edit(self@, local@),
            patch.delete@ == patch_delete(self@, ids(patch_edit(self@, local@))),
    {
        let mut create = IssueMap::new_source_todos();
        let mut edit: IssueMap<u64, FileTodoLocation> = IssueMap::new(ParsingSource::SourceCode);
        let mut dont_delete: Vec<u64> = Vec::new();
        let ghost remote = self@;
        let ghost all = local@;
        let ghost n = local.todos@.len();
        assert(ids(edit@) =~= dont_delete@);
        assert(all.take(0) =~= Seq::empty());
        for local_issue in it: local.todos
            invariant
                remote == self@,
                all == issues(it.seq()),
                distinct(titles(all)),
                create@ == patch_create(titles(remote), all.take(it.index() as int)),
                edit@ == patch_edit(remote, all.take(it.index() as int)),
                dont_delete@ == ids(edit@),
                create.wf(),
                edit.wf(),
                among_first(create@, all, it.index() as int),
                among_first(edit@, all, it.index() as int),
        {
            let ghost k = it.index() as int;
            let ghost prefix = all.take(k);
            let ghost next = all.take(k + 1);
            let ghost title = all[k].head.title;
            assert(next.drop_last() =~= prefix);
            assert(next.last() == all[k]);
            assert(local_issue@ == all[k]);
            let ghost create_before = create@;
            let ghost edit_before = edit@;
            proof {
                lemma_position_is_first(titles(remote), title);
                assert(titles(all)[k] == title);
                assert forall|j: int| 0 <= j < k implies titles(all)[j] != title by {
                    assert(titles(all)[j] != titles(all)[k]);
                }
                lemma_position_some(titles(all), title, k);
                assert forall|a: int| 0 <= a < create_before.len() implies titles(
                    create_before,
                )[a] != title by {
                    assert(position(titles(all), titles(create_before)[a]) is Some);
                }
                assert forall|a: int| 0 <= a < edit_before.len() implies titles(edit_before)[a]
                    != title by {
                    assert(position(titles(all), titles(edit_before)[a]) is Some);
                }
            }
            match self.find_title(local_issue.head.title.as_str()) {
                Some(i) => {
                    let head = &self.todos[i].head;
                    let id = head.external_id;
                    let assignees = head.assignees.clone();
                    assert(texts(assignees@) =~= texts(head.assignees@));
                    let issue = Issue {
                        head: IssueHead { title: head.title.clone(), assignees, external_id: id },
                        body: local_issue.body,
                    };
                    dont_delete.push(id);
                    edit.todos.push(issue);
                    proof {
                        assert(edit@ =~= edit_before.push(
                            IssueModel { head: remote[i as int].head, body: all[k].body },
                        ));
                        assert(ids(edit@) =~= ids(edit_before).push(id));
                        assert(titles(edit@) =~= titles(edit_before).push(title));
                    }
                },
                None => {
                    create.todos.push(local_issue);
                    proof {
                        assert(create@ =~= create_before.push(all[k]));
                        assert(titles(create@) =~= titles(create_before).push(title));
                    }
                },
            }
        }
        assert(all.take(n as int) =~= all);
        let mut delete: Vec<u64> = Vec::new();
        let mut j: usize = 0;
        while j < self.todos.len()
            invariant
                j <= self.todos@.len(),
                remote == self@,
                delete@ == patch_delete(remote.take(j as int), dont_delete@),
            decreases self.todos@.len() - j,
        {
            assert(remote.take(j + 1).drop_last() =~= remote.take(j as int));
            let id = self.todos[j].head.external_id;
            if !holds_id(dont_delete.as_slice(), id) {
                delete.push(id);
            }
            j += 1;
        }
        assert(remote.take(j as int) =~= remote);
        GitHubPatch { create, edit, delete }
    }
}

} // verus!
