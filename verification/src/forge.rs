//! What Gitea and GitHub have in common: repositories, issues, pull requests and comments,
//! and their JSON.
//!
//! An exchange with a server is a function of the server's answer. Without an answer it
//! gives the call to make; with one, what the answer says.

use vstd::prelude::*;
use vstd::utf8::*;

use crate::http::{has_nul, holds_nul, Call, HttpCall, HttpReply};
use crate::json::{
    array_json, document, lemma_array, lemma_object, lemma_string, member, member_from, member_str,
    object_json, parse, parsed, push_shown, raw_arr, raw_members, raw_obj, show, str_json, str_text,
    vals_of, Json, Val,
};
use crate::text::{
    dec, parse_unsigned, push_dec, readable, text_eq, texts, unsigned_value, utf8_lossy,
};

verus! {

#[derive(Debug, Clone)]
pub struct Repo {
    pub full_name: String,
    pub default_branch: String,
    pub fork: bool,
}

#[derive(Debug, Clone)]
pub struct Issue {
    pub number: u64,
    pub title: String,
    pub body: String,
    pub state: IssueState,
    pub user: User,
    pub labels: Vec<Label>,
}

#[derive(Debug, Clone)]
pub struct PullRequest {
    pub number: u64,
    pub title: String,
    pub body: String,
    pub state: IssueState,
    pub head: BranchRef,
    pub base: BranchRef,
    pub merged: bool,
}

#[derive(Debug, Clone)]
pub struct Comment {
    pub id: u64,
    pub body: String,
    pub user: User,
}

#[derive(Debug, Clone)]
pub struct User {
    pub login: String,
    pub id: u64,
}

#[derive(Debug, Clone)]
pub struct Label {
    pub name: String,
    pub color: String,
}

#[derive(Debug, Clone)]
pub struct BranchRef {
    pub label: String,
    /// The member `ref`.
    pub ref_: String,
    pub sha: String,
}

#[derive(Debug, Clone)]
pub struct NewIssue {
    pub title: String,
    pub body: Option<String>,
    /// Names of labels. Gitea asks for their numbers instead and refuses names.
    pub labels: Vec<String>,
}

#[derive(Debug, Clone)]
pub struct NewPull {
    pub title: String,
    pub body: Option<String>,
    pub head: String,
    pub base: String,
}

/// A record is open or closed; `All` is for queries.
#[derive(Debug, Clone, Copy, PartialEq, Eq, Structural)]
pub enum IssueState {
    Open,
    Closed,
    All,
}

#[derive(Debug)]
pub enum Error {
    Http(String),
    /// The server answered with a code outside of 200 to 299.
    Status { code: u16, body: String },
    InvalidResponse(String),
}

/// Mathematical form of an `Error`.
pub enum Failure {
    Http(Seq<char>),
    Status { code: u16, body: Seq<char> },
    InvalidResponse(Seq<char>),
}

impl View for Error {
    type V = Failure;

    open spec fn view(&self) -> Failure {
        match *self {
            Error::Http(m) => Failure::Http(m@),
            Error::Status { code, body } => Failure::Status { code, body: body@ },
            Error::InvalidResponse(m) => Failure::InvalidResponse(m@),
        }
    }
}

impl Error {
    /// The text that describes the error.
    pub fn message(&self) -> (res: String)
        ensures
            res@ == (match self@ {
                Failure::Http(m) => "http: "@ + m,
                Failure::Status { code, body } => "HTTP "@ + dec(code as nat) + ": "@ + body,
                Failure::InvalidResponse(m) => "invalid response: "@ + m,
            }),
    {
        match self {
            Error::Http(m) => {
                let mut res = "http: ".to_owned();
                res.push_str(m.as_str());
                res
            },
            Error::Status { code, body } => {
                let mut res = "HTTP ".to_owned();
                push_dec(&mut res, *code as u128);
                res.push_str(": ");
                res.push_str(body.as_str());
                res
            },
            Error::InvalidResponse(m) => {
                let mut res = "invalid response: ".to_owned();
                res.push_str(m.as_str());
                res
            },
        }
    }
}

impl IssueState {
    /// The state as a query names it.
    pub open spec fn query(self) -> Seq<char> {
        match self {
            IssueState::Open => "open"@,
            IssueState::Closed => "closed"@,
            IssueState::All => "all"@,
        }
    }

    /// The state that a record names: anything but `closed` is open.
    pub open spec fn of(s: Seq<char>) -> IssueState {
        if s == "closed"@ {
            IssueState::Closed
        } else {
            IssueState::Open
        }
    }

    pub fn as_query(self) -> (res: &'static str)
        ensures
            res@ == self.query(),
    {
        match self {
            IssueState::Open => "open",
            IssueState::Closed => "closed",
            IssueState::All => "all",
        }
    }

    pub fn from_str(s: &str) -> (res: IssueState)
        ensures
            res == Self::of(s@),
    {
        if text_eq(s, "closed") {
            IssueState::Closed
        } else {
            IssueState::Open
        }
    }
}

// ---------------------------------------------------------------------------------
// Mathematical forms
// ---------------------------------------------------------------------------------
pub struct RepoView {
    pub full_name: Seq<char>,
    pub default_branch: Seq<char>,
    pub fork: bool,
}

pub struct IssueView {
    pub number: nat,
    pub title: Seq<char>,
    pub body: Seq<char>,
    pub state: IssueState,
    pub user: UserView,
    pub labels: Seq<LabelView>,
}

pub struct PullView {
    pub number: nat,
    pub title: Seq<char>,
    pub body: Seq<char>,
    pub state: IssueState,
    pub head: BranchView,
    pub base: BranchView,
    pub merged: bool,
}

pub struct CommentView {
    pub id: nat,
    pub body: Seq<char>,
    pub user: UserView,
}

pub struct UserView {
    pub login: Seq<char>,
    pub id: nat,
}

pub struct LabelView {
    pub name: Seq<char>,
    pub color: Seq<char>,
}

pub struct BranchView {
    pub label: Seq<char>,
    pub name: Seq<char>,
    pub sha: Seq<char>,
}

impl View for Repo {
    type V = RepoView;

    open spec fn view(&self) -> RepoView {
        RepoView {
            full_name: self.full_name@,
            default_branch: self.default_branch@,
            fork: self.fork,
        }
    }
}

impl View for User {
    type V = UserView;

    open spec fn view(&self) -> UserView {
        UserView { login: self.login@, id: self.id as nat }
    }
}

impl View for Label {
    type V = LabelView;

    open spec fn view(&self) -> LabelView {
        LabelView { name: self.name@, color: self.color@ }
    }
}

impl View for BranchRef {
    type V = BranchView;

    open spec fn view(&self) -> BranchView {
        BranchView { label: self.label@, name: self.ref_@, sha: self.sha@ }
    }
}

impl View for Comment {
    type V = CommentView;

    open spec fn view(&self) -> CommentView {
        CommentView { id: self.id as nat, body: self.body@, user: self.user@ }
    }
}

impl View for Issue {
    type V = IssueView;

    open spec fn view(&self) -> IssueView {
        IssueView {
            number: self.number as nat,
            title: self.title@,
            body: self.body@,
            state: self.state,
            user: self.user@,
            labels: seen(self.labels@),
        }
    }
}

impl View for PullRequest {
    type V = PullView;

    open spec fn view(&self) -> PullView {
        PullView {
            number: self.number as nat,
            title: self.title@,
            body: self.body@,
            state: self.state,
            head: self.head@,
            base: self.base@,
            merged: self.merged,
        }
    }
}

/// The mathematical forms of a sequence of values.
pub open spec fn seen<T: View>(s: Seq<T>) -> Seq<T::V> {
    Seq::new(s.len(), |i: int| s[i]@)
}

// ---------------------------------------------------------------------------------
// Fields
// ---------------------------------------------------------------------------------
/// A text; one that is absent or null is empty.
pub open spec fn str_at(v: Val, key: Seq<char>) -> Result<Seq<char>, Seq<char>> {
    match member(v, key) {
        Some(Val::Str(s)) => Ok(s),
        Some(Val::Null) => Ok(Seq::empty()),
        None => Ok(Seq::empty()),
        Some(o) => Err("field "@ + key + " is not a string: "@ + show(o)),
    }
}

/// A number of 64 bits that must be there.
pub open spec fn num_at(v: Val, key: Seq<char>) -> Result<nat, Seq<char>> {
    match member(v, key) {
        Some(Val::Num(n)) => match unsigned_value(n, u64::MAX as nat) {
            Some(k) => Ok(k),
            None => Err("field "@ + key + " is not u64: "@ + n),
        },
        Some(o) => Err("field "@ + key + " missing or not numeric: "@ + "Some("@ + show(o) + ")"@),
        None => Err("field "@ + key + " missing or not numeric: "@ + "None"@),
    }
}

/// A flag; one that is absent or null is not set.
pub open spec fn bool_at(v: Val, key: Seq<char>) -> Result<bool, Seq<char>> {
    match member(v, key) {
        Some(Val::Bool(b)) => Ok(b),
        Some(Val::Null) => Ok(false),
        None => Ok(false),
        Some(o) => Err("field "@ + key + " is not bool: "@ + show(o)),
    }
}

/// A value that must be there.
pub open spec fn obj_at(v: Val, key: Seq<char>) -> Result<Val, Seq<char>> {
    match member(v, key) {
        Some(o) => Ok(o),
        None => Err("field "@ + key + " missing"@),
    }
}

fn field_str(v: &Json, key: &str) -> (res: Result<String, Error>)
    ensures
        match str_at(v@, key@) {
            Ok(s) => res matches Ok(t) && t@ == s,
            Err(m) => res matches Err(e) && e@ == Failure::InvalidResponse(m),
        },
{
    match v.get(key) {
        Some(Json::Str(s)) => Ok(s.clone()),
        Some(Json::Null) => Ok(String::new()),
        None => Ok(String::new()),
        Some(other) => {
            let mut m = "field ".to_owned();
            m.push_str(key);
            m.push_str(" is not a string: ");
            push_shown(&mut m, other);
            Err(Error::InvalidResponse(m))
        },
    }
}

fn field_u64(v: &Json, key: &str) -> (res: Result<u64, Error>)
    ensures
        match num_at(v@, key@) {
            Ok(n) => res matches Ok(k) && k == n,
            Err(m) => res matches Err(e) && e@ == Failure::InvalidResponse(m),
        },
{
    let mut m = "field ".to_owned();
    m.push_str(key);
    match v.get(key) {
        Some(Json::Num(n)) => {
            match parse_unsigned(n.as_str(), u64::MAX) {
                Some(k) => Ok(k),
                None => {
                    m.push_str(" is not u64: ");
                    m.push_str(n.as_str());
                    Err(Error::InvalidResponse(m))
                },
            }
        },
        Some(other) => {
            m.push_str(" missing or not numeric: ");
            m.push_str("Some(");
            push_shown(&mut m, other);
            m.push_str(")");
            Err(Error::InvalidResponse(m))
        },
        None => {
            m.push_str(" missing or not numeric: ");
            m.push_str("None");
            Err(Error::InvalidResponse(m))
        },
    }
}

fn field_bool(v: &Json, key: &str) -> (res: Result<bool, Error>)
    ensures
        match bool_at(v@, key@) {
            Ok(b) => res matches Ok(c) && b == c,
            Err(m) => res matches Err(e) && e@ == Failure::InvalidResponse(m),
        },
{
    match v.get(key) {
        Some(Json::Bool(b)) => Ok(*b),
        Some(Json::Null) => Ok(false),
        None => Ok(false),
        Some(other) => {
            let mut m = "field ".to_owned();
            m.push_str(key);
            m.push_str(" is not bool: ");
            push_shown(&mut m, other);
            Err(Error::InvalidResponse(m))
        },
    }
}

fn field_obj<'a>(v: &'a Json, key: &str) -> (res: Result<&'a Json, Error>)
    ensures
        match obj_at(v@, key@) {
            Ok(o) => res matches Ok(j) && j@ == o,
            Err(m) => res matches Err(e) && e@ == Failure::InvalidResponse(m),
        },
{
    match v.get(key) {
        Some(o) => Ok(o),
        None => {
            let mut m = "field ".to_owned();
            m.push_str(key);
            m.push_str(" missing");
            Err(Error::InvalidResponse(m))
        },
    }
}

// ---------------------------------------------------------------------------------
// Records
// ---------------------------------------------------------------------------------
pub open spec fn user_of(v: Val) -> Result<UserView, Seq<char>> {
    match str_at(v, "login"@) {
        Err(m) => Err(m),
        Ok(login) => match num_at(v, "id"@) {
            Err(m) => Err(m),
            Ok(id) => Ok(UserView { login, id }),
        },
    }
}

fn parse_user_value(v: &Json) -> (res: Result<User, Error>)
    ensures
        match user_of(v@) {
            Ok(u) => res matches Ok(x) && x@ == u,
            Err(m) => res matches Err(e) && e@ == Failure::InvalidResponse(m),
        },
{
    let login = field_str(v, "login")?;
    let id = field_u64(v, "id")?;
    Ok(User { login, id })
}

/// A record of a server's answers.
pub trait Record: Sized + View {
    /// The record that a JSON value stands for, or why it stands for none.
    spec fn of(v: Val) -> Result<Self::V, Seq<char>>;

    fn read(v: &Json) -> (res: Result<Self, Error>)
        ensures
            match Self::of(v@) {
                Ok(x) => res matches Ok(t) && t@ == x,
                Err(m) => res matches Err(e) && e@ == Failure::InvalidResponse(m),
            },
    ;
}

/// Whether an entry in a list of issues is a pull request.
pub open spec fn is_pull(v: Val) -> bool {
    match member(v, "pull_request"@) {
        None => false,
        Some(Val::Null) => false,
        Some(_) => true,
    }
}

/// The first `n` values as records, in order; with `skip`, without the pull requests. The
/// first value that stands for none decides the error.
pub open spec fn all_of<T: Record>(a: Seq<Val>, n: nat, skip: bool) -> Result<
    Seq<T::V>,
    Seq<char>,
>
    decreases n,
{
    if n == 0 {
        Ok(Seq::empty())
    } else {
        match all_of::<T>(a, (n - 1) as nat, skip) {
            Err(m) => Err(m),
            Ok(s) => if skip && is_pull(a[n - 1]) {
                Ok(s)
            } else {
                match T::of(a[n - 1]) {
                    Ok(x) => Ok(s.push(x)),
                    Err(m) => Err(m),
                }
            },
        }
    }
}

proof fn lemma_all_of<T: Record>(a: Seq<Val>, n: nat, m: nat, skip: bool)
    requires
        n <= m,
        all_of::<T>(a, n, skip) is Err,
    ensures
        all_of::<T>(a, m, skip) == all_of::<T>(a, n, skip),
    decreases m,
{
    if n < m {
        lemma_all_of::<T>(a, n, (m - 1) as nat, skip);
    }
}

fn is_pull_request_entry(v: &Json) -> (res: bool)
    ensures
        res == is_pull(v@),
{
    match v.get("pull_request") {
        None => false,
        Some(Json::Null) => false,
        Some(_) => true,
    }
}

fn read_all<T: Record>(items: &Vec<Json>, skip: bool) -> (res: Result<Vec<T>, Error>)
    ensures
        match all_of::<T>(vals_of(items@), items@.len(), skip) {
            Ok(s) => res matches Ok(v) && seen(v@) == s,
            Err(m) => res matches Err(e) && e@ == Failure::InvalidResponse(m),
        },
{
    let ghost a = vals_of(items@);
    let mut out: Vec<T> = Vec::new();
    let mut i: usize = 0;
    proof {
        lemma_vals(items@);
        assert(seen(out@) =~= Seq::<T::V>::empty());
    }
    while i < items.len()
        invariant
            i <= items@.len(),
            a == vals_of(items@),
            a.len() == items@.len(),
            forall|k: int| 0 <= k < a.len() ==> #[trigger] a[k] == items@[k]@,
            all_of::<T>(a, i as nat, skip) == Ok::<Seq<T::V>, Seq<char>>(seen(out@)),
        decreases items.len() - i,
    {
        proof {
            assert(a[i as int] == items@[i as int]@);
        }
        if !(skip && is_pull_request_entry(&items[i])) {
            let ghost o0 = out@;
            match T::read(&items[i]) {
                Ok(x) => {
                    out.push(x);
                    proof {
                        assert(seen(out@) =~= seen(o0).push(x@));
                    }
                },
                Err(e) => {
                    proof {
                        lemma_all_of::<T>(a, (i + 1) as nat, items@.len(), skip);
                    }
                    return Err(e);
                },
            }
        }
        i += 1;
    }
    Ok(out)
}

proof fn lemma_vals(a: Seq<Json>)
    ensures
        vals_of(a).len() == a.len(),
        forall|k: int| 0 <= k < a.len() ==> #[trigger] vals_of(a)[k] == a[k]@,
    decreases a.len(),
{
    if a.len() > 0 {
        lemma_vals(a.drop_last());
        assert forall|k: int| 0 <= k < a.len() implies #[trigger] vals_of(a)[k] == a[k]@ by {
            if k < a.len() - 1 {
                assert(a.drop_last()[k] == a[k]);
            }
        }
    }
}

impl Record for Label {
    open spec fn of(v: Val) -> Result<LabelView, Seq<char>> {
        match str_at(v, "name"@) {
            Err(m) => Err(m),
            Ok(name) => match str_at(v, "color"@) {
                Err(m) => Err(m),
                Ok(color) => Ok(LabelView { name, color }),
            },
        }
    }

    fn read(v: &Json) -> (res: Result<Self, Error>) {
        let name = field_str(v, "name")?;
        let color = field_str(v, "color")?;
        Ok(Label { name, color })
    }
}

impl Record for Repo {
    open spec fn of(v: Val) -> Result<RepoView, Seq<char>> {
        match str_at(v, "full_name"@) {
            Err(m) => Err(m),
            Ok(full_name) => match str_at(v, "default_branch"@) {
                Err(m) => Err(m),
                Ok(default_branch) => match bool_at(v, "fork"@) {
                    Err(m) => Err(m),
                    Ok(fork) => Ok(RepoView { full_name, default_branch, fork }),
                },
            },
        }
    }

    fn read(v: &Json) -> (res: Result<Self, Error>) {
        let full_name = field_str(v, "full_name")?;
        let default_branch = field_str(v, "default_branch")?;
        let fork = field_bool(v, "fork")?;
        Ok(Repo { full_name, default_branch, fork })
    }
}

pub open spec fn branch_of(v: Val) -> Result<BranchView, Seq<char>> {
    match str_at(v, "label"@) {
        Err(m) => Err(m),
        Ok(label) => match str_at(v, "ref"@) {
            Err(m) => Err(m),
            Ok(name) => match str_at(v, "sha"@) {
                Err(m) => Err(m),
                Ok(sha) => Ok(BranchView { label, name, sha }),
            },
        },
    }
}

fn parse_branch_ref(v: &Json) -> (res: Result<BranchRef, Error>)
    ensures
        match branch_of(v@) {
            Ok(b) => res matches Ok(x) && x@ == b,
            Err(m) => res matches Err(e) && e@ == Failure::InvalidResponse(m),
        },
{
    let label = field_str(v, "label")?;
    let ref_ = field_str(v, "ref")?;
    let sha = field_str(v, "sha")?;
    Ok(BranchRef { label, ref_, sha })
}

impl Record for Comment {
    open spec fn of(v: Val) -> Result<CommentView, Seq<char>> {
        match num_at(v, "id"@) {
            Err(m) => Err(m),
            Ok(id) => match str_at(v, "body"@) {
                Err(m) => Err(m),
                Ok(body) => match obj_at(v, "user"@) {
                    Err(m) => Err(m),
                    Ok(u) => match user_of(u) {
                        Err(m) => Err(m),
                        Ok(user) => Ok(CommentView { id, body, user }),
                    },
                },
            },
        }
    }

    fn read(v: &Json) -> (res: Result<Self, Error>) {
        let id = field_u64(v, "id")?;
        let body = field_str(v, "body")?;
        let u = field_obj(v, "user")?;
        let user = parse_user_value(u)?;
        Ok(Comment { id, body, user })
    }
}

/// The labels of an issue; none where the member is absent or null.
pub open spec fn labels_of(v: Val) -> Result<Seq<LabelView>, Seq<char>> {
    match member(v, "labels"@) {
        Some(Val::Arr(a)) => all_of::<Label>(a, a.len(), false),
        None => Ok(Seq::empty()),
        Some(Val::Null) => Ok(Seq::empty()),
        Some(o) => Err("labels is not array: "@ + show(o)),
    }
}

fn parse_labels(v: &Json) -> (res: Result<Vec<Label>, Error>)
    ensures
        match labels_of(v@) {
            Ok(s) => res matches Ok(x) && seen(x@) == s,
            Err(m) => res matches Err(e) && e@ == Failure::InvalidResponse(m),
        },
{
    let none: Vec<Label> = Vec::new();
    proof {
        assert(seen(none@) =~= Seq::<LabelView>::empty());
    }
    match v.get("labels") {
        Some(Json::Arr(items)) => {
            proof {
                lemma_vals(items@);
            }
            read_all::<Label>(items, false)
        },
        None => Ok(none),
        Some(Json::Null) => Ok(none),
        Some(other) => {
            let mut m = "labels is not array: ".to_owned();
            push_shown(&mut m, other);
            Err(Error::InvalidResponse(m))
        },
    }
}

impl Record for Issue {
    open spec fn of(v: Val) -> Result<IssueView, Seq<char>> {
        match str_at(v, "state"@) {
            Err(m) => Err(m),
            Ok(state) => match labels_of(v) {
                Err(m) => Err(m),
                Ok(labels) => match num_at(v, "number"@) {
                    Err(m) => Err(m),
                    Ok(number) => match str_at(v, "title"@) {
                        Err(m) => Err(m),
                        Ok(title) => match str_at(v, "body"@) {
                            Err(m) => Err(m),
                            Ok(body) => match obj_at(v, "user"@) {
                                Err(m) => Err(m),
                                Ok(u) => match user_of(u) {
                                    Err(m) => Err(m),
                                    Ok(user) => Ok(
                                        IssueView {
                                            number,
                                            title,
                                            body,
                                            state: IssueState::of(state),
                                            user,
                                            labels,
                                        },
                                    ),
                                },
                            },
                        },
                    },
                },
            },
        }
    }

    fn read(v: &Json) -> (res: Result<Self, Error>) {
        let state = field_str(v, "state")?;
        let labels = parse_labels(v)?;
        let number = field_u64(v, "number")?;
        let title = field_str(v, "title")?;
        let body = field_str(v, "body")?;
        let u = field_obj(v, "user")?;
        let user = parse_user_value(u)?;
        Ok(
            Issue {
                number,
                title,
                body,
                state: IssueState::from_str(state.as_str()),
                user,
                labels,
            },
        )
    }
}

impl Record for PullRequest {
    open spec fn of(v: Val) -> Result<PullView, Seq<char>> {
        match str_at(v, "state"@) {
            Err(m) => Err(m),
            Ok(state) => match num_at(v, "number"@) {
                Err(m) => Err(m),
                Ok(number) => match str_at(v, "title"@) {
                    Err(m) => Err(m),
                    Ok(title) => match str_at(v, "body"@) {
                        Err(m) => Err(m),
                        Ok(body) => match obj_at(v, "head"@) {
                            Err(m) => Err(m),
                            Ok(h) => match branch_of(h) {
                                Err(m) => Err(m),
                                Ok(head) => match obj_at(v, "base"@) {
                                    Err(m) => Err(m),
                                    Ok(b) => match branch_of(b) {
                                        Err(m) => Err(m),
                                        Ok(base) => match bool_at(v, "merged"@) {
                                            Err(m) => Err(m),
                                            Ok(merged) => Ok(
                                                PullView {
                                                    number,
                                                    title,
                                                    body,
                                                    state: IssueState::of(state),
                                                    head,
                                                    base,
                                                    merged,
                                                },
                                            ),
                                        },
                                    },
                                },
                            },
                        },
                    },
                },
            },
        }
    }

    fn read(v: &Json) -> (res: Result<Self, Error>) {
        let state = field_str(v, "state")?;
        let number = field_u64(v, "number")?;
        let title = field_str(v, "title")?;
        let body = field_str(v, "body")?;
        let h = field_obj(v, "head")?;
        let head = parse_branch_ref(h)?;
        let b = field_obj(v, "base")?;
        let base = parse_branch_ref(b)?;
        let merged = field_bool(v, "merged")?;
        Ok(
            PullRequest {
                number,
                title,
                body,
                state: IssueState::from_str(state.as_str()),
                head,
                base,
                merged,
            },
        )
    }
}

// ---------------------------------------------------------------------------------
// Requests
// ---------------------------------------------------------------------------------
/// The body member, where there is a body.
pub open spec fn body_members(b: Option<String>) -> Seq<(Seq<char>, Seq<char>)> {
    match b {
        Some(t) => seq![("body"@, str_text(t@))],
        None => Seq::empty(),
    }
}

/// The labels member, where there are labels.
pub open spec fn label_members(l: Seq<String>) -> Seq<(Seq<char>, Seq<char>)> {
    if l.len() > 0 {
        seq![("labels"@, raw_arr(Seq::new(l.len(), |i: int| str_text(l[i]@))))]
    } else {
        Seq::empty()
    }
}

/// The body of a request for a new issue.
pub open spec fn new_issue_text(r: NewIssue) -> Seq<char> {
    raw_obj(
        seq![("title"@, str_text(r.title@))] + body_members(r.body) + label_members(r.labels@),
    )
}

/// The body of a request for a new pull request.
pub open spec fn new_pull_text(r: NewPull) -> Seq<char> {
    raw_obj(
        seq![
            ("title"@, str_text(r.title@)),
            ("head"@, str_text(r.head@)),
            ("base"@, str_text(r.base@)),
        ] + body_members(r.body),
    )
}

/// The body of a request for a new comment.
pub open spec fn comment_text(body: Seq<char>) -> Seq<char> {
    raw_obj(seq![("body"@, str_text(body))])
}

pub fn serialize_new_issue(req: &NewIssue) -> (res: String)
    ensures
        res@ == new_issue_text(*req),
{
    let mut o: Vec<(&str, String)> = Vec::new();
    o.push(("title", str_json(req.title.as_str())));
    let ghost head = seq![("title"@, str_text(req.title@))];
    if let Some(body) = &req.body {
        o.push(("body", str_json(body.as_str())));
    }
    proof {
        assert(raw_members(o@) =~= head + body_members(req.body));
    }
    if req.labels.len() > 0 {
        let mut l: Vec<String> = Vec::new();
        let mut i: usize = 0;
        while i < req.labels.len()
            invariant
                i <= req.labels@.len(),
                l@.len() == i,
                forall|k: int| 0 <= k < i ==> (#[trigger] l@[k])@ == str_text(req.labels@[k]@),
            decreases req.labels.len() - i,
        {
            l.push(str_json(req.labels[i].as_str()));
            i += 1;
        }
        proof {
            assert(texts(l@) =~= Seq::new(
                req.labels@.len(),
                |k: int| str_text(req.labels@[k]@),
            ));
        }
        o.push(("labels", array_json(&l)));
    }
    proof {
        assert(raw_members(o@) =~= head + body_members(req.body) + label_members(req.labels@));
    }
    object_json(&o)
}

pub fn serialize_new_pull(req: &NewPull) -> (res: String)
    ensures
        res@ == new_pull_text(*req),
{
    let mut o: Vec<(&str, String)> = Vec::new();
    o.push(("title", str_json(req.title.as_str())));
    o.push(("head", str_json(req.head.as_str())));
    o.push(("base", str_json(req.base.as_str())));
    let ghost head = seq![
        ("title"@, str_text(req.title@)),
        ("head"@, str_text(req.head@)),
        ("base"@, str_text(req.base@)),
    ];
    if let Some(body) = &req.body {
        o.push(("body", str_json(body.as_str())));
    }
    proof {
        assert(raw_members(o@) =~= head + body_members(req.body));
    }
    object_json(&o)
}

pub fn serialize_comment(body: &str) -> (res: String)
    ensures
        res@ == comment_text(body@),
{
    let mut o: Vec<(&str, String)> = Vec::new();
    o.push(("body", str_json(body)));
    proof {
        assert(raw_members(o@) =~= seq![("body"@, str_text(body@))]);
    }
    object_json(&o)
}

pub open spec fn repo_path(owner: Seq<char>, repo: Seq<char>) -> Seq<char> {
    "/repos/"@ + owner + "/"@ + repo
}

/// A path under a repository that ends in a number.
pub open spec fn item_path(
    owner: Seq<char>,
    repo: Seq<char>,
    kind: Seq<char>,
    number: u64,
) -> Seq<char> {
    repo_path(owner, repo) + kind + dec(number as nat)
}

/// The path of a repository.
pub fn path_of_repo(owner: &str, repo: &str) -> (res: String)
    ensures
        res@ == repo_path(owner@, repo@),
{
    let mut res = "/repos/".to_owned();
    res.push_str(owner);
    res.push_str("/");
    res.push_str(repo);
    res
}

/// A path under a repository.
pub fn path_under(owner: &str, repo: &str, rest: &str) -> (res: String)
    ensures
        res@ == repo_path(owner@, repo@) + rest@,
{
    let mut res = path_of_repo(owner, repo);
    res.push_str(rest);
    res
}

/// A path under a repository that ends in a number.
pub fn path_of_item(owner: &str, repo: &str, kind: &str, number: u64) -> (res: String)
    ensures
        res@ == item_path(owner@, repo@, kind@, number),
{
    let mut res = path_under(owner, repo, kind);
    push_dec(&mut res, number as u128);
    res
}

// ---------------------------------------------------------------------------------
// Exchanges
// ---------------------------------------------------------------------------------
/// A server's answer, or the text of the error with which the exchange failed.
pub type Answer = Result<HttpReply, String>;

/// Where an exchange stands.
#[derive(Debug)]
pub enum Fetch<T> {
    /// This call has to be made.
    Send(HttpCall),
    Done(Result<T, Error>),
}

/// A call, or why it cannot be made: its URL or a header holds a NUL.
pub open spec fn prepared(c: Call) -> Result<Call, Seq<char>> {
    if has_nul(c.url) {
        Err("URL contains NUL"@)
    } else if exists|i: int| 0 <= i < c.headers.len() && has_nul(#[trigger] c.headers[i]) {
        Err("header contains NUL"@)
    } else {
        Ok(c)
    }
}

/// The body of an answer, or how the exchange failed.
pub open spec fn received(a: Answer) -> Result<Seq<u8>, Failure> {
    match a {
        Err(m) => Err(Failure::Http(m@)),
        Ok(r) => if 200 <= r.status < 300 {
            Ok(r.body@)
        } else {
            Err(Failure::Status { code: r.status, body: readable(r.body@) })
        },
    }
}

/// The JSON value in an answer, or how the exchange failed.
pub open spec fn received_value(a: Answer) -> Result<Val, Failure> {
    match received(a) {
        Err(f) => Err(f),
        Ok(b) => match parsed(b) {
            Some(v) => Ok(v),
            None => Err(Failure::InvalidResponse("invalid response: invalid JSON"@)),
        },
    }
}

/// The record in an answer, or how the exchange failed.
pub open spec fn received_one<T: Record>(a: Answer) -> Result<T::V, Failure> {
    match received_value(a) {
        Err(f) => Err(f),
        Ok(v) => match T::of(v) {
            Ok(x) => Ok(x),
            Err(m) => Err(Failure::InvalidResponse(m)),
        },
    }
}

/// The records in an answer, or how the exchange failed.
pub open spec fn received_all<T: Record>(a: Answer, skip: bool) -> Result<Seq<T::V>, Failure> {
    match received_value(a) {
        Err(f) => Err(f),
        Ok(Val::Arr(s)) => match all_of::<T>(s, s.len(), skip) {
            Ok(x) => Ok(x),
            Err(m) => Err(Failure::InvalidResponse(m)),
        },
        Ok(_) => Err(Failure::InvalidResponse("expected JSON array"@)),
    }
}

/// An exchange for one record.
pub open spec fn fetches_one<T: Record>(
    call: Call,
    answer: Option<&Answer>,
    res: Fetch<T>,
) -> bool {
    match prepared(call) {
        Err(m) => res matches Fetch::Done(Err(e)) && e@ == Failure::Http(m),
        Ok(c) => match answer {
            None => res matches Fetch::Send(h) && h@ == c,
            Some(a) => match received_one::<T>(*a) {
                Ok(x) => res matches Fetch::Done(Ok(t)) && t@ == x,
                Err(f) => res matches Fetch::Done(Err(e)) && e@ == f,
            },
        },
    }
}

/// An exchange for a list of records.
pub open spec fn fetches_all<T: Record>(
    call: Call,
    answer: Option<&Answer>,
    skip: bool,
    res: Fetch<Vec<T>>,
) -> bool {
    match prepared(call) {
        Err(m) => res matches Fetch::Done(Err(e)) && e@ == Failure::Http(m),
        Ok(c) => match answer {
            None => res matches Fetch::Send(h) && h@ == c,
            Some(a) => match received_all::<T>(*a, skip) {
                Ok(x) => res matches Fetch::Done(Ok(t)) && seen(t@) == x,
                Err(f) => res matches Fetch::Done(Err(e)) && e@ == f,
            },
        },
    }
}

fn prepare(call: HttpCall) -> (res: Result<HttpCall, Error>)
    ensures
        match prepared(call@) {
            Ok(c) => res matches Ok(h) && h@ == c,
            Err(m) => res matches Err(e) && e@ == Failure::Http(m),
        },
{
    if holds_nul(call.url.as_str()) {
        return Err(Error::Http("URL contains NUL".to_owned()));
    }
    let mut i: usize = 0;
    while i < call.headers.len()
        invariant
            i <= call.headers@.len(),
            forall|k: int| 0 <= k < i ==> !has_nul(#[trigger] call@.headers[k]),
            !has_nul(call@.url),
        decreases call.headers.len() - i,
    {
        proof {
            assert(call@.headers[i as int] == call.headers@[i as int]@);
        }
        if holds_nul(call.headers[i].as_str()) {
            return Err(Error::Http("header contains NUL".to_owned()));
        }
        i += 1;
    }
    Ok(call)
}

fn check_status(r: &HttpReply) -> (res: Result<&Vec<u8>, Error>)
    ensures
        match received(Ok(*r)) {
            Ok(b) => res matches Ok(v) && v@ == b,
            Err(f) => res matches Err(e) && e@ == f,
        },
{
    if r.status >= 200 && r.status < 300 {
        Ok(&r.body)
    } else {
        Err(Error::Status { code: r.status, body: utf8_lossy(r.body.as_slice()) })
    }
}

fn receive(a: &Answer) -> (res: Result<Json, Error>)
    ensures
        match received_value(*a) {
            Ok(v) => res matches Ok(j) && j@ == v,
            Err(f) => res matches Err(e) && e@ == f,
        },
{
    match a {
        Err(m) => Err(Error::Http(m.clone())),
        Ok(r) => {
            let body = check_status(r)?;
            match parse(body.as_slice()) {
                Ok(v) => Ok(v),
                Err(e) => Err(Error::InvalidResponse(e.message())),
            }
        },
    }
}

/// Makes an exchange for one record.
pub fn fetch_one<T: Record>(call: HttpCall, answer: Option<&Answer>) -> (res: Fetch<T>)
    ensures
        fetches_one::<T>(call@, answer, res),
{
    let call = match prepare(call) {
        Ok(c) => c,
        Err(e) => {
            return Fetch::Done(Err(e));
        },
    };
    match answer {
        None => Fetch::Send(call),
        Some(a) => match receive(a) {
            Err(e) => Fetch::Done(Err(e)),
            Ok(v) => Fetch::Done(T::read(&v)),
        },
    }
}

/// Makes an exchange for a list of records; with `skip`, without the pull requests in it.
pub fn fetch_all<T: Record>(call: HttpCall, answer: Option<&Answer>, skip: bool) -> (res: Fetch<
    Vec<T>,
>)
    ensures
        fetches_all::<T>(call@, answer, skip, res),
{
    let call = match prepare(call) {
        Ok(c) => c,
        Err(e) => {
            return Fetch::Done(Err(e));
        },
    };
    match answer {
        None => Fetch::Send(call),
        Some(a) => match receive(a) {
            Err(e) => Fetch::Done(Err(e)),
            Ok(Json::Arr(items)) => {
                proof {
                    lemma_vals(items@);
                }
                Fetch::Done(read_all::<T>(&items, skip))
            },
            Ok(_) => Fetch::Done(Err(Error::InvalidResponse("expected JSON array".to_owned()))),
        },
    }
}

// ---------------------------------------------------------------------------------
// Laws
// ---------------------------------------------------------------------------------
/// A list of issues without the pull requests is the list of the entries that are none:
/// a pull request in it can neither show up nor be the reason for an error.
pub proof fn law_pulls_are_left_out<T: Record>(a: Seq<Val>)
    ensures
        all_of::<T>(a, a.len(), true) == all_of::<T>(
            a.filter(|v: Val| !is_pull(v)),
            a.filter(|v: Val| !is_pull(v)).len(),
            false,
        ),
    decreases a.len(),
{
    reveal(Seq::filter);
    let f = |v: Val| !is_pull(v);
    let b = a.filter(f);
    if a.len() > 0 {
        let p = a.drop_last();
        law_pulls_are_left_out::<T>(p);
        lemma_all_prefix::<T>(a, p, p.len(), true);
        let bp = p.filter(f);
        if f(a.last()) {
            assert(b == bp.push(a.last()));
            lemma_all_prefix::<T>(b, bp, bp.len(), false);
        }
    }
}

proof fn lemma_all_prefix<T: Record>(a: Seq<Val>, p: Seq<Val>, n: nat, skip: bool)
    requires
        n <= p.len() <= a.len(),
        forall|i: int| 0 <= i < n ==> a[i] == p[i],
    ensures
        all_of::<T>(a, n, skip) == all_of::<T>(p, n, skip),
    decreases n,
{
    if n > 0 {
        lemma_all_prefix::<T>(a, p, (n - 1) as nat, skip);
    }
}

/// The body of an answer that tells of an error is handed on unchanged, where it is UTF-8.
pub proof fn law_error_body_is_kept(r: HttpReply)
    requires
        !(200 <= r.status < 300),
        valid_utf8(r.body@),
    ensures
        received(Ok(r)) matches Err(Failure::Status { code, body }) && code == r.status
            && encode_utf8(body) == r.body@,
{
    decode_utf8_encode_utf8(r.body@);
}

/// A state that a query names is the state that a record of that name has; a record is
/// never in the state that stands for all.
pub proof fn law_states_agree(s: IssueState, name: Seq<char>)
    ensures
        s != IssueState::All ==> IssueState::of(s.query()) == s,
        IssueState::of(name) != IssueState::All,
{
    reveal_strlit("open");
    reveal_strlit("closed");
    assert("open"@.len() == 4 && "closed"@.len() == 6);
}

proof fn lemma_keys()
    ensures
        "title"@.len() == 5,
        "head"@.len() == 4 && "head"@[0] == 'h',
        "base"@.len() == 4 && "base"@[0] == 'b' && "base"@[1] == 'a',
        "body"@.len() == 4 && "body"@[0] == 'b' && "body"@[1] == 'o',
        "labels"@.len() == 6,
{
    reveal_strlit("title");
    reveal_strlit("head");
    reveal_strlit("base");
    reveal_strlit("body");
    reveal_strlit("labels");
}

/// The body of a request for a new issue is a JSON text that tells its title, its body if it has
/// one, and all its labels in their order if it has any.
pub proof fn law_new_issue_reads_back(r: NewIssue)
    ensures
        document(new_issue_text(r)) matches Some(v) && {
            &&& member_str(v, "title"@) == Some(r.title@)
            &&& r.body matches Some(b) ==> member_str(v, "body"@) == Some(b@)
            &&& r.body is None ==> member(v, "body"@) is None
            &&& r.labels@.len() == 0 ==> member(v, "labels"@) is None
            &&& r.labels@.len() > 0 ==> (member(v, "labels"@) matches Some(Val::Arr(a)) && a.len()
                == r.labels@.len() && forall|i: int|
                0 <= i < a.len() ==> #[trigger] a[i] == Val::Str(r.labels@[i]@))
        },
{
    let l = r.labels@;
    let lt = Seq::new(l.len(), |i: int| str_text(l[i]@));
    let lv = Seq::new(l.len(), |i: int| Val::Str(l[i]@));
    assert forall|i: int| 0 <= i < lv.len() implies document(#[trigger] lt[i]) == Some(lv[i]) by {
        lemma_string(l[i]@);
    }
    lemma_array(lt, lv);
    lemma_string(r.title@);
    if let Some(b) = r.body {
        lemma_string(b@);
    }
    let body: Seq<(Seq<char>, Val)> = match r.body {
        Some(b) => seq![("body"@, Val::Str(b@))],
        None => Seq::empty(),
    };
    let labels: Seq<(Seq<char>, Val)> = if l.len() > 0 {
        seq![("labels"@, Val::Arr(lv))]
    } else {
        Seq::empty()
    };
    let m = seq![("title"@, str_text(r.title@))] + body_members(r.body) + label_members(l);
    let o = seq![("title"@, Val::Str(r.title@))] + body + labels;
    assert forall|i: int| 0 <= i < o.len() implies (#[trigger] m[i]).0 == o[i].0 && document(m[i].1)
        == Some(o[i].1) by {}
    lemma_object(m, o);
    lemma_keys();
    reveal_with_fuel(member_from, 4);
}

/// The body of a request for a new pull request is a JSON text that tells its title, the branch
/// that it comes from, the branch that it goes to, and its body if it has one.
pub proof fn law_new_pull_reads_back(r: NewPull)
    ensures
        document(new_pull_text(r)) matches Some(v) && {
            &&& member_str(v, "title"@) == Some(r.title@)
            &&& member_str(v, "head"@) == Some(r.head@)
            &&& member_str(v, "base"@) == Some(r.base@)
            &&& r.body matches Some(b) ==> member_str(v, "body"@) == Some(b@)
            &&& r.body is None ==> member(v, "body"@) is None
        },
{
    lemma_string(r.title@);
    lemma_string(r.head@);
    lemma_string(r.base@);
    if let Some(b) = r.body {
        lemma_string(b@);
    }
    let body: Seq<(Seq<char>, Val)> = match r.body {
        Some(b) => seq![("body"@, Val::Str(b@))],
        None => Seq::empty(),
    };
    let m = seq![
        ("title"@, str_text(r.title@)),
        ("head"@, str_text(r.head@)),
        ("base"@, str_text(r.base@)),
    ] + body_members(r.body);
    let o = seq![
        ("title"@, Val::Str(r.title@)),
        ("head"@, Val::Str(r.head@)),
        ("base"@, Val::Str(r.base@)),
    ] + body;
    assert forall|i: int| 0 <= i < o.len() implies (#[trigger] m[i]).0 == o[i].0 && document(m[i].1)
        == Some(o[i].1) by {}
    lemma_object(m, o);
    lemma_keys();
    reveal_with_fuel(member_from, 5);
}

/// The body of a request for a new comment is a JSON text that tells it.
pub proof fn law_comment_reads_back(body: Seq<char>)
    ensures
        document(comment_text(body)) matches Some(v) && member_str(v, "body"@) == Some(body),
{
    lemma_string(body);
    lemma_object(seq![("body"@, str_text(body))], seq![("body"@, Val::Str(body))]);
    reveal_with_fuel(member_from, 2);
}

/// Whether a text is that of a member; one that is absent or null is empty.
pub open spec fn tells_text(v: Val, key: Seq<char>, s: Seq<char>) -> bool {
    match member(v, key) {
        Some(Val::Str(t)) => s == t,
        Some(Val::Null) => s.len() == 0,
        None => s.len() == 0,
        _ => false,
    }
}

/// Whether a number is that of a member.
pub open spec fn tells_number(v: Val, key: Seq<char>, n: nat) -> bool {
    member(v, key) matches Some(Val::Num(d)) && unsigned_value(d, u64::MAX as nat) == Some(n)
}

/// Whether a flag is that of a member; one that is absent or null is not set.
pub open spec fn tells_flag(v: Val, key: Seq<char>, b: bool) -> bool {
    match member(v, key) {
        Some(Val::Bool(x)) => b == x,
        Some(Val::Null) => !b,
        None => !b,
        _ => false,
    }
}

proof fn lemma_all<T: Record>(a: Seq<Val>, n: nat)
    requires
        n <= a.len(),
    ensures
        all_of::<T>(a, n, false) matches Ok(s) ==> s.len() == n && forall|i: int|
            0 <= i < n ==> T::of(#[trigger] a[i]) == Ok::<T::V, Seq<char>>(s[i]),
        (forall|i: int| 0 <= i < n ==> T::of(#[trigger] a[i]) is Ok) ==> all_of::<T>(
            a,
            n,
            false,
        ) is Ok,
    decreases n,
{
    if n > 0 {
        lemma_all::<T>(a, (n - 1) as nat);
    }
}

/// A list of records has one for each entry of the answer, in their order, and there is one if and
/// only if each entry stands for a record.
pub proof fn law_lists_are_whole<T: Record>(a: Seq<Val>)
    ensures
        all_of::<T>(a, a.len(), false) matches Ok(s) ==> s.len() == a.len() && forall|i: int|
            0 <= i < a.len() ==> T::of(#[trigger] a[i]) == Ok::<T::V, Seq<char>>(s[i]),
        all_of::<T>(a, a.len(), false) is Ok <==> forall|i: int|
            0 <= i < a.len() ==> T::of(#[trigger] a[i]) is Ok,
{
    lemma_all::<T>(a, a.len());
}

/// An issue is what its members tell: the number, the title, the body, who opened it, whether it
/// is closed, and its labels in their order. There is one wherever they tell all that.
pub proof fn law_issue_is_what_is_told(v: Val)
    ensures
        Issue::of(v) matches Ok(x) ==> {
            &&& tells_number(v, "number"@, x.number)
            &&& tells_text(v, "title"@, x.title)
            &&& tells_text(v, "body"@, x.body)
            &&& x.state == IssueState::Closed <==> member_str(v, "state"@) == Some("closed"@)
            &&& member(v, "user"@) matches Some(u) && tells_text(u, "login"@, x.user.login)
                && tells_number(u, "id"@, x.user.id)
            &&& match member(v, "labels"@) {
                Some(Val::Arr(a)) => x.labels.len() == a.len() && forall|i: int|
                    0 <= i < a.len() ==> tells_text(#[trigger] a[i], "name"@, x.labels[i].name)
                        && tells_text(a[i], "color"@, x.labels[i].color),
                _ => x.labels.len() == 0,
            }
        },
        member(v, "number"@) matches Some(Val::Num(n)) ==> (unsigned_value(n, u64::MAX as nat) is Some
            && member_str(v, "title"@) is Some && member_str(v, "body"@) is Some && member_str(
            v,
            "state"@,
        ) is Some && member(v, "labels"@) is None ==> (member(v, "user"@) matches Some(u) ==> (
        member_str(u, "login"@) is Some ==> (member(u, "id"@) matches Some(Val::Num(d)) ==> (
        unsigned_value(d, u64::MAX as nat) is Some ==> Issue::of(v) is Ok))))),
{
    reveal_strlit("closed");
    assert("closed"@.len() == 6);
    if let Some(Val::Arr(a)) = member(v, "labels"@) {
        lemma_all::<Label>(a, a.len());
        if let Ok(x) = Issue::of(v) {
            assert forall|i: int| 0 <= i < a.len() implies tells_text(
                #[trigger] a[i],
                "name"@,
                x.labels[i].name,
            ) && tells_text(a[i], "color"@, x.labels[i].color) by {
                assert(Label::of(a[i]) == Ok::<LabelView, Seq<char>>(x.labels[i]));
            }
        }
    }
}

/// A pull request is what its members tell: the number, the title, the body, whether it is closed
/// and whether it is merged, the branch that it comes from and the branch that it goes to.
pub proof fn law_pull_is_what_is_told(v: Val)
    ensures
        PullRequest::of(v) matches Ok(x) ==> {
            &&& tells_number(v, "number"@, x.number)
            &&& tells_text(v, "title"@, x.title)
            &&& tells_text(v, "body"@, x.body)
            &&& x.state == IssueState::Closed <==> member_str(v, "state"@) == Some("closed"@)
            &&& tells_flag(v, "merged"@, x.merged)
            &&& member(v, "head"@) matches Some(h) && tells_text(h, "label"@, x.head.label)
                && tells_text(h, "ref"@, x.head.name) && tells_text(h, "sha"@, x.head.sha)
            &&& member(v, "base"@) matches Some(b) && tells_text(b, "label"@, x.base.label)
                && tells_text(b, "ref"@, x.base.name) && tells_text(b, "sha"@, x.base.sha)
        },
{
    reveal_strlit("closed");
    assert("closed"@.len() == 6);
}

/// A comment is what its members tell: its number, its text and who wrote it. A repository is its
/// full name, its default branch and whether it is a fork.
pub proof fn law_comment_and_repository_are_what_is_told(v: Val)
    ensures
        Comment::of(v) matches Ok(x) ==> {
            &&& tells_number(v, "id"@, x.id)
            &&& tells_text(v, "body"@, x.body)
            &&& member(v, "user"@) matches Some(u) && tells_text(u, "login"@, x.user.login)
                && tells_number(u, "id"@, x.user.id)
        },
        Repo::of(v) matches Ok(x) ==> {
            &&& tells_text(v, "full_name"@, x.full_name)
            &&& tells_text(v, "default_branch"@, x.default_branch)
            &&& tells_flag(v, "fork"@, x.fork)
        },
        member_str(v, "full_name"@) is Some && member_str(v, "default_branch"@) is Some && (member(
            v,
            "fork"@,
        ) matches Some(Val::Bool(_))) ==> Repo::of(v) is Ok,
{
}

/// An answer counts only with a status from 200 to 299. Then what it holds is read; otherwise the
/// status is the error, and where there was no answer at all, that is.
pub proof fn law_status_decides<T: Record>(r: HttpReply, why: String, skip: bool)
    ensures
        200 <= r.status < 300 ==> match parsed(r.body@) {
            Some(v) => {
                &&& received_one::<T>(Ok(r)) == (match T::of(v) {
                    Ok(x) => Ok(x),
                    Err(m) => Err(Failure::InvalidResponse(m)),
                })
                &&& v matches Val::Arr(a) ==> received_all::<T>(Ok(r), skip) == (match all_of::<T>(
                    a,
                    a.len(),
                    skip,
                ) {
                    Ok(x) => Ok(x),
                    Err(m) => Err(Failure::InvalidResponse(m)),
                })
                &&& !(v is Arr) ==> (received_all::<T>(Ok(r), skip) matches Err(f) && f
                    is InvalidResponse)
            },
            None => (received_one::<T>(Ok(r)) matches Err(f) && f is InvalidResponse) && (
            received_all::<T>(Ok(r), skip) matches Err(g) && g is InvalidResponse),
        },
        !(200 <= r.status < 300) ==> (received_one::<T>(Ok(r)) matches Err(Failure::Status {
            code,
            body: _,
        }) && code == r.status) && received_all::<T>(Ok(r), skip) is Err,
        received_one::<T>(Err(why)) == Err::<T::V, Failure>(Failure::Http(why@)),
        received_all::<T>(Err(why), skip) == Err::<Seq<T::V>, Failure>(Failure::Http(why@)),
{
}

/// A path under a repository names its owner, the repository, the kind and the number, in this
/// order.
pub proof fn law_paths(owner: Seq<char>, repo: Seq<char>, kind: Seq<char>, number: u64)
    ensures
        repo_path(owner, repo) == "/repos/"@ + owner + "/"@ + repo,
        item_path(owner, repo, kind, number) == "/repos/"@ + owner + "/"@ + repo + kind + dec(
            number as nat,
        ),
{
}

/// A call is sent as it is, unless a NUL in its address or in a header forbids it.
pub proof fn law_calls_are_sent_as_they_are(c: Call)
    ensures
        prepared(c) matches Ok(x) ==> x == c,
        prepared(c) is Err <==> ((exists|i: int| 0 <= i < c.url.len() && #[trigger] c.url[i] == '\u{0}')
            || exists|i: int, j: int|
            0 <= i < c.headers.len() && 0 <= j < c.headers[i].len() && #[trigger] c.headers[i][j]
                == '\u{0}'),
{
    if exists|i: int| 0 <= i < c.headers.len() && has_nul(#[trigger] c.headers[i]) {
        let i = choose|i: int| 0 <= i < c.headers.len() && has_nul(#[trigger] c.headers[i]);
        let j = choose|j: int| 0 <= j < c.headers[i].len() && #[trigger] c.headers[i][j] == '\u{0}';
        assert(c.headers[i][j] == '\u{0}');
    }
    if exists|i: int, j: int|
        0 <= i < c.headers.len() && 0 <= j < c.headers[i].len() && #[trigger] c.headers[i][j]
            == '\u{0}' {
        let (i, j) = choose|i: int, j: int|
            0 <= i < c.headers.len() && 0 <= j < c.headers[i].len() && #[trigger] c.headers[i][j]
                == '\u{0}';
        assert(has_nul(c.headers[i]));
    }
}

/// An exchange: without an answer the call is to be sent; with one, the record or the list in it is
/// what comes of the exchange, or the error is.
pub proof fn law_exchanges<T: Record>(
    call: Call,
    answer: Option<&Answer>,
    skip: bool,
    one: Fetch<T>,
    all: Fetch<Vec<T>>,
)
    requires
        fetches_one(call, answer, one),
        fetches_all(call, answer, skip, all),
        !has_nul(call.url),
        forall|i: int| 0 <= i < call.headers.len() ==> !has_nul(#[trigger] call.headers[i]),
    ensures
        answer is None ==> (one matches Fetch::Send(h) && h@ == call) && (all matches Fetch::Send(g)
            && g@ == call),
        answer matches Some(a) ==> {
            &&& one matches Fetch::Done(r) && match received_one::<T>(*a) {
                Ok(x) => r matches Ok(t) && t@ == x,
                Err(f) => r matches Err(e) && e@ == f,
            }
            &&& all matches Fetch::Done(r) && match received_all::<T>(*a, skip) {
                Ok(x) => r matches Ok(t) && t@.len() == x.len() && forall|i: int|
                    0 <= i < x.len() ==> (#[trigger] t@[i])@ == x[i],
                Err(f) => r matches Err(e) && e@ == f,
            }
        },
{
    if let Some(a) = answer {
        if let Fetch::Done(Ok(t)) = all {
            assert forall|i: int| 0 <= i < t@.len() implies (#[trigger] t@[i])@ == seen(t@)[i] by {}
        }
    }
}

/// An entry in a list of issues is a pull request if it has a member that tells so, and it is not
/// null.
pub proof fn law_pulls_among_issues(v: Val)
    ensures
        is_pull(v) <==> (member(v, "pull_request"@) matches Some(x) && !(x is Null)),
{
}

/// A state is named by its own word in a query.
pub proof fn law_states_in_queries()
    ensures
        IssueState::Open.query() == "open"@,
        IssueState::Closed.query() == "closed"@,
        IssueState::All.query() == "all"@,
{
}

} // verus!
