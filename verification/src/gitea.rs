//! Client for the Gitea REST API.
//!
//! It speaks to Gitea, Forgejo and Codeberg. A list of issues is asked for without the pull
//! requests.

use vstd::prelude::*;

pub use crate::forge::{
    Answer, BranchRef, Comment, Error, Fetch, Issue, IssueState, Label, NewIssue, NewPull,
    PullRequest, Repo, User,
};
use crate::forge::{
    comment_text, fetch_all, fetch_one, fetches_all, fetches_one, item_path, new_issue_text,
    new_pull_text, path_of_item, path_of_repo, path_under, repo_path, serialize_comment,
    serialize_new_issue, serialize_new_pull,
};
use crate::http::{join_url, strip_slashes, Call, HttpCall};
use crate::text::texts;

verus! {

#[derive(Debug)]
pub struct Client {
    pub base_url: String,
    pub token: String,
}

/// A call to read something.
pub open spec fn get_call(c: Client, path: Seq<char>) -> Call {
    Call { post: false, url: strip_slashes(c.base_url@) + ("/api/v1"@ + path), headers: headers(c), body: None }
}

/// A call to make something.
pub open spec fn post_call(c: Client, path: Seq<char>, body: Seq<char>) -> Call {
    Call {
        post: true,
        url: strip_slashes(c.base_url@) + ("/api/v1"@ + path),
        headers: headers(c).push("Content-Type: application/json"@),
        body: Some(body),
    }
}

/// The headers of every call.
pub open spec fn headers(c: Client) -> Seq<Seq<char>> {
    seq!["Authorization: token "@ + c.token@, "Accept: application/json"@]
}

impl Client {
    pub fn new(base_url: &str, token: &str) -> (res: Self)
        ensures
            res.base_url@ == base_url@,
            res.token@ == token@,
    {
        Client { base_url: base_url.to_owned(), token: token.to_owned() }
    }

    fn headers(&self) -> (res: Vec<String>)
        ensures
            texts(res@) == headers(*self),
    {
        let mut auth = "Authorization: token ".to_owned();
        auth.push_str(self.token.as_str());
        let mut h: Vec<String> = Vec::new();
        h.push(auth);
        h.push("Accept: application/json".to_owned());
        proof {
            assert(texts(h@) =~= headers(*self));
        }
        h
    }

    fn url(&self, path: &str) -> (res: String)
        ensures
            res@ == strip_slashes(self.base_url@) + ("/api/v1"@ + path@),
    {
        let mut rest = "/api/v1".to_owned();
        rest.push_str(path);
        join_url(self.base_url.as_str(), rest.as_str())
    }

    fn get(&self, path: &str) -> (res: HttpCall)
        ensures
            res@ == get_call(*self, path@),
    {
        HttpCall { post: false, url: self.url(path), headers: self.headers(), body: None }
    }

    fn post(&self, path: &str, body: String) -> (res: HttpCall)
        ensures
            res@ == post_call(*self, path@, body@),
    {
        let mut headers = self.headers();
        let ghost h0 = headers@;
        headers.push("Content-Type: application/json".to_owned());
        proof {
            assert(texts(headers@) =~= texts(h0).push("Content-Type: application/json"@));
        }
        HttpCall { post: true, url: self.url(path), headers, body: Some(body) }
    }

    pub fn get_repo(&self, owner: &str, repo: &str, answer: Option<&Answer>) -> (res: Fetch<Repo>)
        ensures
            fetches_one(get_call(*self, repo_path(owner@, repo@)), answer, res),
    {
        fetch_one(self.get(path_of_repo(owner, repo).as_str()), answer)
    }

    /// The issues in a state.
    pub fn list_issues(
        &self,
        owner: &str,
        repo: &str,
        state: IssueState,
        answer: Option<&Answer>,
    ) -> (res: Fetch<Vec<Issue>>)
        ensures
            fetches_all(
                get_call(
                    *self,
                    repo_path(owner@, repo@) + ("/issues?type=issues&state="@ + state.query()),
                ),
                answer,
                false,
                res,
            ),
    {
        let mut rest = "/issues?type=issues&state=".to_owned();
        rest.push_str(state.as_query());
        fetch_all(self.get(path_under(owner, repo, rest.as_str()).as_str()), answer, false)
    }

    pub fn get_issue(
        &self,
        owner: &str,
        repo: &str,
        number: u64,
        answer: Option<&Answer>,
    ) -> (res: Fetch<Issue>)
        ensures
            fetches_one(
                get_call(*self, item_path(owner@, repo@, "/issues/"@, number)),
                answer,
                res,
            ),
    {
        fetch_one(self.get(path_of_item(owner, repo, "/issues/", number).as_str()), answer)
    }

    pub fn create_issue(
        &self,
        owner: &str,
        repo: &str,
        req: &NewIssue,
        answer: Option<&Answer>,
    ) -> (res: Fetch<Issue>)
        ensures
            fetches_one(
                post_call(*self, repo_path(owner@, repo@) + "/issues"@, new_issue_text(*req)),
                answer,
                res,
            ),
    {
        let path = path_under(owner, repo, "/issues");
        fetch_one(self.post(path.as_str(), serialize_new_issue(req)), answer)
    }

    pub fn add_issue_comment(
        &self,
        owner: &str,
        repo: &str,
        number: u64,
        body: &str,
        answer: Option<&Answer>,
    ) -> (res: Fetch<Comment>)
        ensures
            fetches_one(
                post_call(
                    *self,
                    item_path(owner@, repo@, "/issues/"@, number) + "/comments"@,
                    comment_text(body@),
                ),
                answer,
                res,
            ),
    {
        let mut path = path_of_item(owner, repo, "/issues/", number);
        path.push_str("/comments");
        fetch_one(self.post(path.as_str(), serialize_comment(body)), answer)
    }

    pub fn list_issue_comments(
        &self,
        owner: &str,
        repo: &str,
        number: u64,
        answer: Option<&Answer>,
    ) -> (res: Fetch<Vec<Comment>>)
        ensures
            fetches_all(
                get_call(*self, item_path(owner@, repo@, "/issues/"@, number) + "/comments"@),
                answer,
                false,
                res,
            ),
    {
        let mut path = path_of_item(owner, repo, "/issues/", number);
        path.push_str("/comments");
        fetch_all(self.get(path.as_str()), answer, false)
    }

    pub fn list_pulls(
        &self,
        owner: &str,
        repo: &str,
        state: IssueState,
        answer: Option<&Answer>,
    ) -> (res: Fetch<Vec<PullRequest>>)
        ensures
            fetches_all(
                get_call(*self, repo_path(owner@, repo@) + ("/pulls?state="@ + state.query())),
                answer,
                false,
                res,
            ),
    {
        let mut rest = "/pulls?state=".to_owned();
        rest.push_str(state.as_query());
        fetch_all(self.get(path_under(owner, repo, rest.as_str()).as_str()), answer, false)
    }

    pub fn get_pull(
        &self,
        owner: &str,
        repo: &str,
        number: u64,
        answer: Option<&Answer>,
    ) -> (res: Fetch<PullRequest>)
        ensures
            fetches_one(
                get_call(*self, item_path(owner@, repo@, "/pulls/"@, number)),
                answer,
                res,
            ),
    {
        fetch_one(self.get(path_of_item(owner, repo, "/pulls/", number).as_str()), answer)
    }

    pub fn create_pull(
        &self,
        owner: &str,
        repo: &str,
        req: &NewPull,
        answer: Option<&Answer>,
    ) -> (res: Fetch<PullRequest>)
        ensures
            fetches_one(
                post_call(*self, repo_path(owner@, repo@) + "/pulls"@, new_pull_text(*req)),
                answer,
                res,
            ),
    {
        let path = path_under(owner, repo, "/pulls");
        fetch_one(self.post(path.as_str(), serialize_new_pull(req)), answer)
    }
}

// ---------------------------------------------------------------------------------
// Laws
// ---------------------------------------------------------------------------------
/// Every call goes to the path it names behind the base address, and carries the token. One that
/// reads has no body; one that makes something posts its body as JSON.
pub proof fn law_calls(c: Client, d: Client, path: Seq<char>, body: Seq<char>)
    ensures
        c.base_url@.len() > 0 && c.base_url@.last() != '/' ==> get_call(c, path).url == c.base_url@ + ("/api/v1"@ + path)
            && post_call(c, path, body).url == c.base_url@ + ("/api/v1"@ + path),
        d.base_url@ == c.base_url@.push('/') ==> get_call(d, path).url == get_call(c, path).url
            && post_call(d, path, body).url == post_call(c, path, body).url,
        !get_call(c, path).post && get_call(c, path).body is None,
        post_call(c, path, body).post && post_call(c, path, body).body == Some(body),
        get_call(c, path).headers =~= seq![
            "Authorization: token "@ + c.token@, "Accept: application/json"@,
        ],
        post_call(c, path, body).headers =~= seq![
            "Authorization: token "@ + c.token@, "Accept: application/json"@,
            "Content-Type: application/json"@,
        ],
{
    assert(c.base_url@.push('/').drop_last() =~= c.base_url@);
}

} // verus!
