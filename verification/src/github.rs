//! What is exchanged with the issue tracker.

use vstd::prelude::*;
use vstd::string::*;

use crate::Error;
use crate::finder::parse::{parse_owner_and_repo_from_config, spec_owner_and_repo_from_config};
use crate::parser::{FileTodoLocation, IssueMap, holds_text};
use crate::text::texts;
use crate::text::number::{decimal, push_decimal_u64};

verus! {

/// What has to change at the tracker to bring its issues in line with the
/// todos of the source code.
pub struct GitHubPatch {
    /// The issues to open: those that only the source code holds.
    pub create: IssueMap<(), FileTodoLocation>,
    /// The issues to rewrite: those that both hold, each with the head that
    /// the tracker knows and the body that the source code gives.
    pub edit: IssueMap<u64, FileTodoLocation>,
    /// The ids of the issues to close: those that only the tracker holds.
    pub delete: Vec<u64>,
}

/// A label of an issue, as the tracker gives it.
#[derive(Debug, Clone)]
pub struct GitHubLabel {
    pub id: u64,
    pub name: String,
    pub description: Option<String>,
}

/// One of the people an issue is assigned to, as the tracker gives them.
#[derive(Debug, Clone)]
pub struct GitHubAssignee {
    pub login: String,
}

/// The author of an issue, as the tracker gives them.
#[derive(Debug, Clone)]
pub struct GitHubUser {
    pub login: String,
}

/// An issue as the tracker gives it.
#[derive(Debug, Clone)]
pub struct GitHubIssue {
    pub id: u64,
    /// The number of the issue in its repository, by which it is addressed.
    pub number: u64,
    pub title: String,
    /// The text of the issue, if it has any.
    pub body: Option<String>,
    pub state: String,
    pub labels: Vec<GitHubLabel>,
    pub assignees: Vec<GitHubAssignee>,
    pub user: GitHubUser,
}

/// The address of the issues of a repository.
pub open spec fn spec_github_issues_url(owner: Seq<char>, repo: Seq<char>) -> Seq<char> {
    "https://api.github.com/repos/"@ + owner + "/"@ + repo + "/issues"@
}

/// The address of the issues of the repository `repo` of `owner`.
pub fn github_issues_url(owner: &str, repo: &str) -> (r: String)
    ensures
        r@ == spec_github_issues_url(owner@, repo@),
{
    let mut url = String::from_str("https://api.github.com/repos/");
    url.append(owner);
    url.append("/");
    url.append(repo);
    url.append("/issues");
    assert(url@ =~= spec_github_issues_url(owner@, repo@));
    url
}

/// The address of the issue with the number `id` in the repository `repo`
/// of `owner`.
pub fn github_issues_update_url(owner: &str, repo: &str, id: u64) -> (r: String)
    ensures
        r@ == spec_github_issues_url(owner@, repo@) + "/"@ + decimal(id as nat),
{
    let mut url = github_issues_url(owner, repo);
    url.append("/");
    push_decimal_u64(&mut url, id);
    assert(url@ =~= spec_github_issues_url(owner@, repo@) + "/"@ + decimal(id as nat));
    url
}

/// The labels of an issue that is to bear the label `label`: those it has,
/// and `label` at their end unless it is among them.
pub fn with_label(labels: Vec<String>, label: &str) -> (r: Vec<String>)
    ensures
        texts(r@) == if texts(labels@).contains(label@) {
            texts(labels@)
        } else {
            texts(labels@).push(label@)
        },
{
    let mut labels = labels;
    if !holds_text(labels.as_slice(), label) {
        let ghost before = texts(labels@);
        labels.push(String::from_str(label));
        assert(texts(labels@) =~= before.push(label@));
    }
    labels
}

/// The owner and the name of the repository whose origin is `origin`, as
/// `git config --get remote.origin.url` prints it. Fails where the origin has
/// neither the form of ssh nor that of a URL.
pub fn owner_and_repo(origin: &str) -> (r: Result<(String, String), Error>)
    ensures
        match r {
            Ok((owner, repo)) => match spec_owner_and_repo_from_config(origin@) {
                Some((_, found)) => found == (owner@, repo@),
                None => false,
            },
            Err(Error::ParseOwnerRepo) => spec_owner_and_repo_from_config(origin@) is None,
            Err(_) => false,
        },
{
    match parse_owner_and_repo_from_config(origin) {
        Ok((_, (owner, repo))) => Ok((String::from_str(owner), String::from_str(repo))),
        Err(_) => Err(Error::ParseOwnerRepo),
    }
}



} // verus!
