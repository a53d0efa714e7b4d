//! Pull requests at GitHub: how one is asked for, and what the answer says.

use vstd::prelude::*;

use crate::checkout::{begun, pull_request_branch, Checkout};
use crate::json::{as_text, content, error_text, get, member, parse, parsed, same, Json};
use crate::model::{Config, State};
use crate::table::{holds, lemma_place, lookup};
use crate::text::{decimal, decimal_of, opt_str, texts};

verus! {

/// Why a pull request cannot be checked out.
pub enum PrError {
    /// The pool has no repository at GitHub.
    NoRepo,
    /// GitHub could not be asked.
    FetchFailed,
    /// The answer is no JSON document; with what is wrong with it.
    Malformed(String),
    /// GitHub answered with this message.
    Refused(String),
    /// The answer names no branch.
    NoBranch,
}

/// What a [`PrError`] says.
pub enum PrErrorView {
    NoRepo,
    FetchFailed,
    Malformed(Seq<char>),
    Refused(Seq<char>),
    NoBranch,
}

impl View for PrError {
    type V = PrErrorView;

    open spec fn view(&self) -> PrErrorView {
        match *self {
            PrError::NoRepo => PrErrorView::NoRepo,
            PrError::FetchFailed => PrErrorView::FetchFailed,
            PrError::Malformed(detail) => PrErrorView::Malformed(detail@),
            PrError::Refused(m) => PrErrorView::Refused(m@),
            PrError::NoBranch => PrErrorView::NoBranch,
        }
    }
}

impl PrErrorView {
    /// What the user is told.
    pub open spec fn text(self, pool: Seq<char>, number: u64) -> Seq<char> {
        match self {
            PrErrorView::NoRepo => "No GitHub repo configured for pool '"@ + pool + "'"@,
            PrErrorView::FetchFailed => "Failed to fetch PR #"@ + decimal_of(number as nat)
                + " (HTTP error). Check that the PR exists and the repo is correct."@,
            PrErrorView::Malformed(detail) => detail,
            PrErrorView::Refused(message) => "GitHub API error for PR #"@ + decimal_of(
                number as nat,
            ) + ": "@ + message,
            PrErrorView::NoBranch => "Could not find branch name in PR response"@,
        }
    }
}

impl PrError {
    /// What the user is told.
    pub fn message(&self, pool: &str, number: u64) -> (r: String)
        ensures
            r@ == self@.text(pool@, number),
    {
        match self {
            PrError::NoRepo => {
                let mut r = "No GitHub repo configured for pool '".to_owned();
                r.append(pool);
                r.append("'");
                r
            },
            PrError::FetchFailed => {
                let mut r = "Failed to fetch PR #".to_owned();
                r.append(decimal(number as u128).as_str());
                r.append(" (HTTP error). Check that the PR exists and the repo is correct.");
                r
            },
            PrError::Malformed(detail) => detail.clone(),
            PrError::Refused(message) => {
                let mut r = "GitHub API error for PR #".to_owned();
                r.append(decimal(number as u128).as_str());
                r.append(": ");
                r.append(message.as_str());
                r
            },
            PrError::NoBranch => "Could not find branch name in PR response".to_owned(),
        }
    }
}

/// Where GitHub tells of a pull request.
pub open spec fn pull_url(repo: Seq<char>, number: u64) -> Seq<char> {
    "https://api.github.com/repos/"@ + repo + "/pulls/"@ + decimal_of(number as nat)
}

/// The arguments of `curl` that ask GitHub for a pull request, with a token if there
/// is one.
pub open spec fn request_words(
    repo: Seq<char>,
    number: u64,
    token: Option<Seq<char>>,
) -> Seq<Seq<char>> {
    let first = seq![
        "-s"@,
        "-L"@,
        "--fail"@,
        "-H"@,
        "Accept: application/vnd.github+json"@,
    ];
    let url = pull_url(repo, number);
    match token {
        Some(t) => first + seq!["-H"@, "Authorization: Bearer "@ + t, url],
        None => first.push(url),
    }
}

/// The arguments of `curl` that ask GitHub for a pull request.
pub fn request_args(repo: &str, number: u64, token: Option<&str>) -> (r: Vec<String>)
    ensures
        texts(r@) == request_words(repo@, number, opt_str(token)),
{
    let mut url = "https://api.github.com/repos/".to_owned();
    url.append(repo);
    url.append("/pulls/");
    url.append(decimal(number as u128).as_str());
    let mut r = vec![
        "-s".to_owned(),
        "-L".to_owned(),
        "--fail".to_owned(),
        "-H".to_owned(),
        "Accept: application/vnd.github+json".to_owned(),
    ];
    if let Some(t) = token {
        let mut header = "Authorization: Bearer ".to_owned();
        header.append(t);
        r.push("-H".to_owned());
        r.push(header);
    }
    r.push(url);
    assert(texts(r@) =~= request_words(repo@, number, opt_str(token)));
    r
}

/// The arguments of `curl` that ask GitHub for a pull request of a pool that is set
/// up, unless the pool has no repository there.
pub fn pull_request_request(config: &Config, pool: &str, number: u64, token: Option<&str>) -> (r:
    Result<Vec<String>, PrError>)
    requires
        holds(config@.pools, pool@),
    ensures
        ({
            match lookup(config@.pools, pool@)->0.github_repo {
                Some(repo) => r matches Ok(args) && texts(args@) == request_words(
                    repo,
                    number,
                    opt_str(token),
                ),
                None => r matches Err(e) && e@ == PrErrorView::NoRepo,
            }
        }),
{
    proof {
        lemma_place(config@.pools, pool@);
    }
    if let Some(pc) = config.pools.get(pool) {
        if let Some(repo) = &pc.github_repo {
            return Ok(request_args(repo.as_str(), number, token));
        }
    }
    Err(PrError::NoRepo)
}

/// A pull request.
pub struct PullRequest {
    /// The branch that it is on.
    pub branch: String,
    /// Whether that branch is in another repository.
    pub fork: bool,
}

/// What a [`PullRequest`] says.
pub struct PullRequestView {
    pub branch: Seq<char>,
    pub fork: bool,
}

impl View for PullRequest {
    type V = PullRequestView;

    open spec fn view(&self) -> PullRequestView {
        PullRequestView { branch: self.branch@, fork: self.fork }
    }
}

/// What an answer means that holds this error message, if any, and names this
/// branch, if any, and whose branch is in the repository that it is to go to or not.
pub open spec fn answer_of(
    message: Option<Seq<char>>,
    branch: Option<Seq<char>>,
    same_repo: bool,
) -> Result<PullRequestView, PrErrorView> {
    match message {
        Some(m) => Err(PrErrorView::Refused(m)),
        None => match branch {
            Some(b) => Ok(PullRequestView { branch: b, fork: !same_repo }),
            None => Err(PrErrorView::NoBranch),
        },
    }
}

/// A result, by what it says.
pub open spec fn outcome(r: Result<PullRequest, PrError>) -> Result<PullRequestView, PrErrorView> {
    match r {
        Ok(p) => Ok(p@),
        Err(e) => Err(e@),
    }
}

/// Judges an answer by what was found in it.
pub fn judge_answer(message: Option<&str>, branch: Option<&str>, same_repo: bool) -> (r: Result<
    PullRequest,
    PrError,
>)
    ensures
        outcome(r) == answer_of(opt_str(message), opt_str(branch), same_repo),
{
    match message {
        Some(m) => Err(PrError::Refused(m.to_owned())),
        None => match branch {
            Some(b) => Ok(PullRequest { branch: b.to_owned(), fork: !same_repo }),
            None => Err(PrError::NoBranch),
        },
    }
}

/// The text that a document is, if it is one.
pub open spec fn text_of(j: Json) -> Option<Seq<char>> {
    match j {
        Json::Text(t) => Some(t),
        _ => None,
    }
}

/// What the document that GitHub answered with means.
pub open spec fn document_means(j: Json) -> Result<PullRequestView, PrErrorView> {
    answer_of(
        text_of(member(j, "message"@)),
        text_of(member(member(j, "head"@), "ref"@)),
        member(member(member(j, "head"@), "repo"@), "full_name"@) == member(
            member(member(j, "base"@), "repo"@),
            "full_name"@,
        ),
    )
}

/// Reads the document that GitHub answered with.
pub fn read_document(doc: &serde_json::Value) -> (r: Result<PullRequest, PrError>)
    ensures
        outcome(r) == document_means(content(*doc)),
        r matches Ok(pr) ==> (pr.fork <==> member(
            member(member(content(*doc), "head"@), "repo"@),
            "full_name"@,
        ) != member(member(member(content(*doc), "base"@), "repo"@), "full_name"@)),
{
    let head = get(doc, "head");
    let base = get(doc, "base");
    let message = as_text(get(doc, "message"));
    let branch = as_text(get(head, "ref"));
    let same_repo = same(
        get(get(head, "repo"), "full_name"),
        get(get(base, "repo"), "full_name"),
    );
    judge_answer(message, branch, same_repo)
}

/// What the bytes that GitHub answered with mean.
pub open spec fn reply_means(bytes: Seq<u8>) -> Result<PullRequestView, PrErrorView> {
    match parsed(bytes) {
        Ok(j) => document_means(j),
        Err(words) => Err(PrErrorView::Malformed(words)),
    }
}

/// Reads what GitHub answered, if it could be asked.
pub fn read_reply(success: bool, bytes: &[u8]) -> (r: Result<PullRequest, PrError>)
    ensures
        !success ==> outcome(r) == Err::<PullRequestView, PrErrorView>(PrErrorView::FetchFailed),
        success ==> outcome(r) == reply_means(bytes@),
{
    if !success {
        return Err(PrError::FetchFailed);
    }
    match parse(bytes) {
        Ok(doc) => read_document(&doc),
        Err(e) => Err(PrError::Malformed(error_text(&e))),
    }
}

/// What the user is told of a pull request.
pub open spec fn found_text(pr: PullRequestView, number: u64) -> Seq<char> {
    if pr.fork {
        "PR #"@ + decimal_of(number as nat) + " is a fork PR on branch: "@ + pr.branch
    } else {
        "PR #"@ + decimal_of(number as nat) + " is on branch: "@ + pr.branch
    }
}

impl PullRequest {
    /// What the user is told of the pull request.
    pub fn message(&self, number: u64) -> (r: String)
        ensures
            r@ == found_text(self@, number),
    {
        let mut r = "PR #".to_owned();
        r.append(decimal(number as u128).as_str());
        if self.fork {
            r.append(" is a fork PR on branch: ");
        } else {
            r.append(" is on branch: ");
        }
        r.append(self.branch.as_str());
        r
    }

    /// Begins to check the pull request out in a pool. One from a fork is fetched by
    /// its number, for its branch is not in the repository.
    pub fn checkout(&self, state: State, pool: &str, number: u64) -> (r: Checkout)
        ensures
            self.fork ==> r@ == begun(
                state@,
                pool@,
                pull_request_branch(number),
                true,
                Some(number),
            ),
            !self.fork ==> r@ == begun(state@, pool@, self.branch@, true, None),
            r@.wf(),
    {
        if self.fork {
            Checkout::pull_request(state, pool, number)
        } else {
            Checkout::branch(state, pool, self.branch.as_str(), false)
        }
    }
}

/// An answer that holds an error message is never taken for a pull request, and one
/// without names a branch if it is.
pub proof fn law_error_is_never_a_pull_request(j: Json)
    ensures
        member(j, "message"@) is Text ==> document_means(j) == Err::<PullRequestView, PrErrorView>(
            PrErrorView::Refused(member(j, "message"@)->Text_0),
        ),
        document_means(j) is Ok ==> !(member(j, "message"@) is Text) && member(
            member(j, "head"@),
            "ref"@,
        ) == Json::Text(document_means(j)->Ok_0.branch),
{
}

/// Where neither side of a pull request names its repository, it counts as no fork;
/// where only one does, as a fork.
pub proof fn law_unnamed_repositories(j: Json)
    requires
        document_means(j) is Ok,
    ensures
        ({
            let head = member(member(member(j, "head"@), "repo"@), "full_name"@);
            let base = member(member(member(j, "base"@), "repo"@), "full_name"@);
            &&& head is Null && base is Null ==> !document_means(j)->Ok_0.fork
            &&& head is Null && !(base is Null) ==> document_means(j)->Ok_0.fork
            &&& !(head is Null) && base is Null ==> document_means(j)->Ok_0.fork
        }),
{
}

/// A pull request that is read is on the branch that its head names, and comes from a
/// fork if and only if the name of its head repository is not that of its base
/// repository, whatever the two are and whatever the branch is called.
pub proof fn law_fork(j: Json)
    requires
        document_means(j) is Ok,
    ensures
        ({
            let pr = document_means(j)->Ok_0;
            let head = member(member(member(j, "head"@), "repo"@), "full_name"@);
            let base = member(member(member(j, "base"@), "repo"@), "full_name"@);
            &&& pr.fork <==> head != base
            &&& member(member(j, "head"@), "ref"@) == Json::Text(pr.branch)
        }),
{
}

/// When a pull request is read: if and only if there is no message of an error and the
/// head names a branch. Else the message is told, and only without one that the branch
/// is missing.
pub proof fn law_answers(j: Json)
    ensures
        ({
            let message = member(j, "message"@);
            let branch = member(member(j, "head"@), "ref"@);
            &&& document_means(j) is Ok <==> !(message is Text) && branch is Text
            &&& message is Text ==> document_means(j) == Err::<PullRequestView, PrErrorView>(
                PrErrorView::Refused(message->Text_0),
            )
            &&& !(message is Text) && !(branch is Text) ==> document_means(j) == Err::<
                PullRequestView,
                PrErrorView,
            >(PrErrorView::NoBranch)
        }),
{
}

/// What is read from the bytes of an answer is what the document in them means; bytes
/// that are no document are refused in the words of the parser.
pub proof fn law_reply(bytes: Seq<u8>)
    ensures
        parsed(bytes) matches Ok(j) ==> reply_means(bytes) == document_means(j),
        parsed(bytes) matches Err(words) ==> reply_means(bytes) == Err::<
            PullRequestView,
            PrErrorView,
        >(PrErrorView::Malformed(words)),
{
}

/// How GitHub is asked: for the pull request of this number in this repository, as JSON,
/// with errors made known; a token changes nothing but that it is sent along.
pub proof fn law_request(repo: Seq<char>, number: u64, token: Seq<char>)
    ensures
        ({
            let url = "https://api.github.com/repos/"@ + repo + "/pulls/"@ + decimal_of(
                number as nat,
            );
            let plain = request_words(repo, number, None);
            let signed = request_words(repo, number, Some(token));
            &&& plain == seq![
                "-s"@,
                "-L"@,
                "--fail"@,
                "-H"@,
                "Accept: application/vnd.github+json"@,
                url,
            ]
            &&& signed == plain.drop_last() + seq!["-H"@, "Authorization: Bearer "@ + token, url]
        }),
{
    let plain = request_words(repo, number, None);
    assert(plain.drop_last() =~= seq![
        "-s"@,
        "-L"@,
        "--fail"@,
        "-H"@,
        "Accept: application/vnd.github+json"@,
    ]);
    assert(plain =~= plain.drop_last().push(plain.last()));
}

/// What the user is told of a pull request, and of one that cannot be checked out, names
/// its number, its branch, its pool and what GitHub said.
pub proof fn law_pull_request_words(
    branch: Seq<char>,
    pool: Seq<char>,
    message: Seq<char>,
    number: u64,
)
    ensures
        ({
            let n = decimal_of(number as nat);
            &&& found_text(PullRequestView { branch, fork: true }, number) == "PR #"@ + n
                + " is a fork PR on branch: "@ + branch
            &&& found_text(PullRequestView { branch, fork: false }, number) == "PR #"@ + n
                + " is on branch: "@ + branch
            &&& PrErrorView::NoRepo.text(pool, number) == "No GitHub repo configured for pool '"@
                + pool + "'"@
            &&& PrErrorView::FetchFailed.text(pool, number) == "Failed to fetch PR #"@ + n
                + " (HTTP error). Check that the PR exists and the repo is correct."@
            &&& PrErrorView::Malformed(message).text(pool, number) == message
            &&& PrErrorView::Refused(message).text(pool, number) == "GitHub API error for PR #"@ + n
                + ": "@ + message
            &&& PrErrorView::NoBranch.text(pool, number)
                == "Could not find branch name in PR response"@
        }),
{
}

} // verus!
