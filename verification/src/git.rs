//! What is asked of `git`, and how its answers are read.
//!
//! The `git` command does the work, so that behaviour (hooks, config,
//! credential helpers, LFS, sparse checkouts) matches exactly what the
//! developer gets in their own terminal. Here are its command lines, the
//! reading of what it prints, and the steps of the operations that take several
//! commands.

use vstd::prelude::*;

use crate::text::{
    begins, byte_len, byte_len_adds, chars_of, counts_read_back, decimal, decimals_read_back,
    drop_prefix, duplicate_all, duplicate_opt, find_char, find_first, find_first_bounds,
    find_start_within, first_is_found, i64_text, join, join_texts, lines, lines_end_at_line_feeds,
    lines_of, nothing_is_found, parse_u64, parts_between, pieces, pieces_part_at_separators,
    plain_characters_take_a_byte, same, seen, signed, split_pieces, split_text, start_within,
    starts_with, text_of, texts, texts_push, trim, trim_right, trimmed, u64_in, views, views_push,
    whole_texts_are_one_piece, Duplicate,
};

verus! {

/// Identity used for commits made on behalf of agents.
pub const COMMITTER_NAME: &'static str = "Bodega";

pub const COMMITTER_EMAIL: &'static str = "bodega@localhost";

/// What went wrong with git.
#[allow(inconsistent_fields)]
#[derive(Debug, PartialEq)]
pub enum GitError {
    /// Git could not be run.
    Spawn {
        message: String,
    },
    Failed {
        command: String,
        code: Option<i32>,
        stderr: String,
    },
    NotARepo {
        path: String,
    },
    MergeConflict {
        branch: String,
        files: Vec<String>,
    },
}

/// What a value of type `GitError` stands for.
#[allow(inconsistent_fields)]
#[verifier::ext_equal]
pub enum GitErrorModel {
    Spawn { message: Seq<char> },
    Failed { command: Seq<char>, code: Option<i32>, stderr: Seq<char> },
    NotARepo { path: Seq<char> },
    MergeConflict { branch: Seq<char>, files: Seq<Seq<char>> },
}

impl View for GitError {
    type V = GitErrorModel;

    open spec fn view(&self) -> GitErrorModel {
        match self {
            GitError::Spawn { message } => GitErrorModel::Spawn {
                message: message@,
            },
            GitError::Failed { command, code, stderr } => GitErrorModel::Failed {
                command: command@,
                code: *code,
                stderr: stderr@,
            },
            GitError::NotARepo { path } => GitErrorModel::NotARepo {
                path: path@,
            },
            GitError::MergeConflict { branch, files } => GitErrorModel::MergeConflict {
                branch: branch@,
                files: views(files@),
            },
        }
    }
}

impl Duplicate for GitError {
    fn duplicate(&self) -> (r: GitError) {
        match self {
            GitError::Spawn { message } => GitError::Spawn {
                message: message.clone(),
            },
            GitError::Failed { command, code, stderr } => GitError::Failed {
                command: command.clone(),
                code: *code,
                stderr: stderr.clone(),
            },
            GitError::NotARepo { path } => GitError::NotARepo {
                path: path.clone(),
            },
            GitError::MergeConflict { branch, files } => GitError::MergeConflict {
                branch: branch.clone(),
                files: duplicate_all(files),
            },
        }
    }
}

impl Clone for GitError {
    fn clone(&self) -> (r: GitError)
        ensures
            r@ == self@,
    {
        self.duplicate()
    }
}

/// An exit code, if there is one.
pub open spec fn code_text(code: Option<i32>) -> Seq<char> {
    match code {
        Some(c) => "Some("@ + signed(c as int) + ")"@,
        None => "None"@,
    }
}

impl GitErrorModel {
    pub open spec fn message(self) -> Seq<char> {
        match self {
            GitErrorModel::Spawn { message } => "failed to run git: "@ + message,
            GitErrorModel::Failed { command, code, stderr } => "`git "@ + command
                + "` exited with "@ + code_text(code) + ": "@ + stderr,
            GitErrorModel::NotARepo { path } => "`"@ + path + "` is not inside a git repository"@,
            GitErrorModel::MergeConflict { branch, files } => "merging `"@ + branch
                + "` conflicted in: "@ + join(files, ", "@),
        }
    }
}

impl GitError {
    /// The error, in words.
    pub fn message(&self) -> (r: String)
        ensures
            r@ == self@.message(),
    {
        match self {
            GitError::Spawn { message } => {
                let mut r = "failed to run git: ".to_owned();
                r.append(message.as_str());
                r
            },
            GitError::Failed { command, code, stderr } => {
                let mut r = "`git ".to_owned();
                r.append(command.as_str());
                r.append("` exited with ");
                match code {
                    Some(c) => {
                        let mut t = "Some(".to_owned();
                        t.append(i64_text(*c as i64).as_str());
                        t.append(")");
                        r.append(t.as_str());
                    },
                    None => {
                        r.append("None");
                    },
                }
                r.append(": ");
                r.append(stderr.as_str());
                r
            },
            GitError::NotARepo { path } => {
                let mut r = "`".to_owned();
                r.append(path.as_str());
                r.append("` is not inside a git repository");
                r
            },
            GitError::MergeConflict { branch, files } => {
                let mut r = "merging `".to_owned();
                r.append(branch.as_str());
                r.append("` conflicted in: ");
                r.append(join_texts(files, ", ").as_str());
                r
            },
        }
    }
}

/// A repository that is operated on (the developer's checkout).
#[derive(Debug, PartialEq, Eq)]
pub struct GitRepo {
    pub root: String,
}

impl GitRepo {
    /// Where the repository is.
    pub fn root(&self) -> (r: &str)
        ensures
            r@ == self.root@,
    {
        self.root.as_str()
    }
}

/// One entry from `git worktree list`.
#[derive(Debug, PartialEq)]
pub struct WorktreeInfo {
    pub path: String,
    pub head: Option<String>,
    /// Short branch name, or `None` when detached.
    pub branch: Option<String>,
}

/// What a value of type `WorktreeInfo` stands for.
#[verifier::ext_equal]
pub struct WorktreeInfoModel {
    pub path: Seq<char>,
    pub head: Option<Seq<char>>,
    pub branch: Option<Seq<char>>,
}

impl View for WorktreeInfo {
    type V = WorktreeInfoModel;

    open spec fn view(&self) -> WorktreeInfoModel {
        WorktreeInfoModel {
            path: self.path@,
            head: seen(self.head),
            branch: seen(self.branch),
        }
    }
}

impl Duplicate for WorktreeInfo {
    fn duplicate(&self) -> (r: WorktreeInfo) {
        WorktreeInfo {
            path: self.path.clone(),
            head: duplicate_opt(&self.head),
            branch: duplicate_opt(&self.branch),
        }
    }
}

impl Clone for WorktreeInfo {
    fn clone(&self) -> (r: WorktreeInfo)
        ensures
            r@ == self@,
    {
        self.duplicate()
    }
}

/// A checked-out worktree on its own branch.
#[derive(Debug, PartialEq)]
pub struct Worktree {
    pub path: String,
    pub branch: String,
}

/// What a value of type `Worktree` stands for.
#[verifier::ext_equal]
pub struct WorktreeModel {
    pub path: Seq<char>,
    pub branch: Seq<char>,
}

impl View for Worktree {
    type V = WorktreeModel;

    open spec fn view(&self) -> WorktreeModel {
        WorktreeModel {
            path: self.path@,
            branch: self.branch@,
        }
    }
}

impl Duplicate for Worktree {
    fn duplicate(&self) -> (r: Worktree) {
        Worktree {
            path: self.path.clone(),
            branch: self.branch.clone(),
        }
    }
}

impl Clone for Worktree {
    fn clone(&self) -> (r: Worktree)
        ensures
            r@ == self@,
    {
        self.duplicate()
    }
}

/// How a path changed relative to the index or `HEAD`.
#[derive(Debug, PartialEq)]
pub struct FileStatus {
    /// Two-letter porcelain status code, e.g. `" M"`, `"??"`, `"R "`.
    pub code: String,
    pub path: String,
    /// Original path for renames and copies.
    pub from: Option<String>,
}

/// What a value of type `FileStatus` stands for.
#[verifier::ext_equal]
pub struct FileStatusModel {
    pub code: Seq<char>,
    pub path: Seq<char>,
    pub from: Option<Seq<char>>,
}

impl View for FileStatus {
    type V = FileStatusModel;

    open spec fn view(&self) -> FileStatusModel {
        FileStatusModel {
            code: self.code@,
            path: self.path@,
            from: seen(self.from),
        }
    }
}

impl Duplicate for FileStatus {
    fn duplicate(&self) -> (r: FileStatus) {
        FileStatus {
            code: self.code.clone(),
            path: self.path.clone(),
            from: duplicate_opt(&self.from),
        }
    }
}

impl Clone for FileStatus {
    fn clone(&self) -> (r: FileStatus)
        ensures
            r@ == self@,
    {
        self.duplicate()
    }
}

/// Per-file line counts from `git diff --numstat`.
#[derive(Debug, PartialEq)]
pub struct FileDiffStat {
    pub path: String,
    /// `None` for binary files.
    pub added: Option<u64>,
    pub removed: Option<u64>,
}

/// What a value of type `FileDiffStat` stands for.
#[verifier::ext_equal]
pub struct FileDiffStatModel {
    pub path: Seq<char>,
    pub added: Option<u64>,
    pub removed: Option<u64>,
}

impl View for FileDiffStat {
    type V = FileDiffStatModel;

    open spec fn view(&self) -> FileDiffStatModel {
        FileDiffStatModel {
            path: self.path@,
            added: self.added,
            removed: self.removed,
        }
    }
}

impl Duplicate for FileDiffStat {
    fn duplicate(&self) -> (r: FileDiffStat) {
        FileDiffStat {
            path: self.path.clone(),
            added: self.added,
            removed: self.removed,
        }
    }
}

impl Clone for FileDiffStat {
    fn clone(&self) -> (r: FileDiffStat)
        ensures
            r@ == self@,
    {
        self.duplicate()
    }
}

/// The words of a command line, as texts.
pub fn args_of(parts: Vec<&str>) -> (r: Vec<String>)
    ensures
        texts(r@) == views(parts@),
{
    let mut r: Vec<String> = Vec::new();
    let mut i: usize = 0;
    while i < parts.len()
        invariant
            i <= parts.len(),
            texts(r@) == views(parts@).take(i as int),
        decreases parts.len() - i,
    {
        let word: String = parts[i].to_owned();
        proof {
            texts_push(r@, word);
            assert(views(parts@).take(i + 1) =~= views(parts@).take(i as int).push(word@));
        }
        r.push(word);
        i += 1;
    }
    assert(views(parts@).take(i as int) =~= views(parts@));
    r
}

/// What a run of git amounts to: its output without white space behind, or how
/// it failed.
pub open spec fn git_result(
    args: Seq<Seq<char>>,
    success: bool,
    code: Option<i32>,
    stdout: Seq<char>,
    stderr: Seq<char>,
) -> Result<Seq<char>, GitErrorModel> {
    if success {
        Ok(trim_right(stdout))
    } else {
        Err(
            GitErrorModel::Failed { command: join(args, " "@), code, stderr: trimmed(stderr) },
        )
    }
}

/// What a result with a text stands for.
pub open spec fn seen_result(r: Result<String, GitError>) -> Result<Seq<char>, GitErrorModel> {
    match r {
        Ok(t) => Ok(t@),
        Err(e) => Err(e@),
    }
}

/// Reads what a finished git process left.
pub fn read_git(
    args: &Vec<String>,
    success: bool,
    code: Option<i32>,
    stdout: &str,
    stderr: &str,
) -> (r: Result<String, GitError>)
    ensures
        seen_result(r) == git_result(texts(args@), success, code, stdout@, stderr@),
{
    if success {
        Ok(crate::text::trim_end(stdout))
    } else {
        Err(
            GitError::Failed { command: join_texts(args, " "), code, stderr: trim(stderr) },
        )
    }
}

/// Whether git succeeded; an error only where it could not be asked.
pub fn succeeded(r: Result<String, GitError>) -> (b: Result<bool, GitError>)
    ensures
        match r {
            Ok(_) => b == Ok::<bool, GitError>(true),
            Err(GitError::Failed { .. }) => b == Ok::<bool, GitError>(false),
            Err(e) => b == Err::<bool, GitError>(e),
        },
{
    match r {
        Ok(_) => Ok(true),
        Err(GitError::Failed { .. }) => Ok(false),
        Err(e) => Err(e),
    }
}

/// How to ask for the root of the repository.
pub fn open_args() -> (r: Vec<String>)
    ensures
        texts(r@) == seq!["rev-parse"@, "--show-toplevel"@],
{
    let parts: Vec<&str> = vec!["rev-parse", "--show-toplevel"];
    assert(views(parts@) =~= seq!["rev-parse"@, "--show-toplevel"@]);
    args_of(parts)
}

/// The repository containing `path`, from the answer of git.
pub fn opened(path: &str, r: Result<String, GitError>) -> (o: Result<GitRepo, GitError>)
    ensures
        match r {
            Ok(root) => o matches Ok(repo) && repo.root == root,
            Err(GitError::Failed { .. }) => o matches Err(GitError::NotARepo { path: p }) && p@
                == path@,
            Err(e) => o == Err::<GitRepo, GitError>(e),
        },
{
    match r {
        Ok(root) => Ok(GitRepo { root }),
        Err(GitError::Failed { .. }) => Err(GitError::NotARepo { path: path.to_owned() }),
        Err(e) => Err(e),
    }
}

/// How to resolve a revision (branch, tag, `HEAD`…) to a commit.
pub fn rev_parse_args(rev: &str) -> (r: Vec<String>)
    ensures
        texts(r@) == seq!["rev-parse"@, "--verify"@, rev@ + "^{commit}"@],
{
    let mut commit = rev.to_owned();
    commit.append("^{commit}");
    let parts: Vec<&str> = vec!["rev-parse", "--verify", commit.as_str()];
    assert(views(parts@) =~= seq!["rev-parse"@, "--verify"@, rev@ + "^{commit}"@]);
    args_of(parts)
}

pub fn current_branch_args() -> (r: Vec<String>)
    ensures
        texts(r@) == seq!["rev-parse"@, "--abbrev-ref"@, "HEAD"@],
{
    let parts: Vec<&str> = vec!["rev-parse", "--abbrev-ref", "HEAD"];
    assert(views(parts@) =~= seq!["rev-parse"@, "--abbrev-ref"@, "HEAD"@]);
    args_of(parts)
}

/// The branch that git names, or `None` when detached.
pub fn branch_named(name: String) -> (r: Option<String>)
    ensures
        r == if name@ == "HEAD"@ {
            None
        } else {
            Some(name)
        },
{
    if same(name.as_str(), "HEAD") {
        None
    } else {
        Some(name)
    }
}

pub fn branch_exists_args(branch: &str) -> (r: Vec<String>)
    ensures
        texts(r@) == seq!["show-ref"@, "--verify"@, "--quiet"@, "refs/heads/"@ + branch@],
{
    let mut name = "refs/heads/".to_owned();
    name.append(branch);
    let parts: Vec<&str> = vec!["show-ref", "--verify", "--quiet", name.as_str()];
    assert(views(parts@) =~= seq!["show-ref"@, "--verify"@, "--quiet"@, "refs/heads/"@ + branch@]);
    args_of(parts)
}

/// How to create a worktree at `path` on a new branch `branch` starting at
/// `base`.
pub fn add_worktree_args(path: &str, branch: &str, base: &str) -> (r: Vec<String>)
    ensures
        texts(r@) == seq!["worktree"@, "add"@, "-b"@, branch@, path@, base@],
        forall|m: CloneModel|
            #![trigger m.trees.dom().contains(base@)]
            m.trees.dom().contains(base@) && !m.branches.dom().contains(branch@) ==> (git_does(
                texts(r@),
                m,
            ) matches Some((n, ok)) && ok && n.branches == m.branches.insert(
                branch@,
                m.trees[base@],
            ) && n.worktrees == m.worktrees.insert(path@, branch@)),
{
    let parts: Vec<&str> = vec!["worktree", "add", "-b", branch, path, base];
    assert(views(parts@) =~= seq!["worktree"@, "add"@, "-b"@, branch@, path@, base@]);
    args_of(parts)
}

/// How to check out an existing `branch` into a new worktree at `path`.
pub fn attach_worktree_args(path: &str, branch: &str) -> (r: Vec<String>)
    ensures
        texts(r@) == seq!["worktree"@, "add"@, path@, branch@],
        forall|m: CloneModel| #[trigger]
            m.branches.dom().contains(branch@) ==> (git_does(texts(r@), m) matches Some((n, ok))
                && ok && n.branches == m.branches && n.worktrees == m.worktrees.insert(
                path@,
                branch@,
            )),
{
    proof {
        words_differ();
    }
    let parts: Vec<&str> = vec!["worktree", "add", path, branch];
    assert(views(parts@) =~= seq!["worktree"@, "add"@, path@, branch@]);
    args_of(parts)
}

/// How to remove a worktree directory (the branch is kept).
pub fn remove_worktree_args(path: &str, force: bool) -> (r: Vec<String>)
    ensures
        texts(r@) == if force {
            seq!["worktree"@, "remove"@, "--force"@, path@]
        } else {
            seq!["worktree"@, "remove"@, path@]
        },
{
    if force {
        let parts: Vec<&str> = vec!["worktree", "remove", "--force", path];
        assert(views(parts@) =~= seq!["worktree"@, "remove"@, "--force"@, path@]);
        args_of(parts)
    } else {
        let parts: Vec<&str> = vec!["worktree", "remove", path];
        assert(views(parts@) =~= seq!["worktree"@, "remove"@, path@]);
        args_of(parts)
    }
}

pub fn list_worktrees_args() -> (r: Vec<String>)
    ensures
        texts(r@) == seq!["worktree"@, "list"@, "--porcelain"@],
{
    let parts: Vec<&str> = vec!["worktree", "list", "--porcelain"];
    assert(views(parts@) =~= seq!["worktree"@, "list"@, "--porcelain"@]);
    args_of(parts)
}

/// How to read `path` at revision `rev`.
pub fn show_file_args(rev: &str, path: &str) -> (r: Vec<String>)
    ensures
        texts(r@) == seq!["show"@, rev@ + ":"@ + path@],
{
    let mut object = rev.to_owned();
    object.append(":");
    object.append(path);
    let parts: Vec<&str> = vec!["show", object.as_str()];
    assert(views(parts@) =~= seq!["show"@, rev@ + ":"@ + path@]);
    args_of(parts)
}

/// The file that git showed, or `None` where it has none.
pub fn shown(r: Result<String, GitError>) -> (o: Result<Option<String>, GitError>)
    ensures
        match r {
            Ok(content) => o == Ok::<_, GitError>(Some(content)),
            Err(GitError::Failed { .. }) => o == Ok::<Option<String>, GitError>(None),
            Err(e) => o == Err::<Option<String>, GitError>(e),
        },
{
    match r {
        Ok(content) => Ok(Some(content)),
        Err(GitError::Failed { .. }) => Ok(None),
        Err(e) => Err(e),
    }
}

pub fn delete_branch_args(branch: &str, force: bool) -> (r: Vec<String>)
    ensures
        texts(r@) == seq![
            "branch"@,
            if force {
                "-D"@
            } else {
                "-d"@
            },
            branch@,
        ],
{
    let flag: &str = if force {
        "-D"
    } else {
        "-d"
    };
    let parts: Vec<&str> = vec!["branch", flag, branch];
    assert(views(parts@) =~= seq!["branch"@, flag@, branch@]);
    args_of(parts)
}

pub fn status_args() -> (r: Vec<String>)
    ensures
        texts(r@) == seq!["status"@, "--porcelain=v1"@, "-z"@, "--untracked-files=all"@],
{
    let parts: Vec<&str> = vec!["status", "--porcelain=v1", "-z", "--untracked-files=all"];
    assert(views(parts@) =~= seq!["status"@, "--porcelain=v1"@, "-z"@, "--untracked-files=all"@]);
    args_of(parts)
}

pub fn head_args() -> (r: Vec<String>)
    ensures
        texts(r@) == seq!["rev-parse"@, "HEAD"@],
{
    let parts: Vec<&str> = vec!["rev-parse", "HEAD"];
    assert(views(parts@) =~= seq!["rev-parse"@, "HEAD"@]);
    args_of(parts)
}

/// How to count lines since a branch forked from `base`.
pub fn diff_numstat_args(base: &str) -> (r: Vec<String>)
    ensures
        texts(r@) == seq!["diff"@, "--numstat"@, base@ + "...HEAD"@],
{
    let mut range = base.to_owned();
    range.append("...HEAD");
    let parts: Vec<&str> = vec!["diff", "--numstat", range.as_str()];
    assert(views(parts@) =~= seq!["diff"@, "--numstat"@, base@ + "...HEAD"@]);
    args_of(parts)
}

/// How to get the changes since a branch forked from `base`.
pub fn diff_args(base: &str) -> (r: Vec<String>)
    ensures
        texts(r@) == seq!["diff"@, base@ + "...HEAD"@],
{
    let mut range = base.to_owned();
    range.append("...HEAD");
    let parts: Vec<&str> = vec!["diff", range.as_str()];
    assert(views(parts@) =~= seq!["diff"@, base@ + "...HEAD"@]);
    args_of(parts)
}

/// How to move a worktree's branch (and files) to `rev`, discarding changes.
pub fn reset_hard_args(rev: &str) -> (r: Vec<String>)
    ensures
        texts(r@) == seq!["reset"@, "--hard"@, "--quiet"@, rev@],
        forall|m: CloneModel| #[trigger]
            m.trees.dom().contains(rev@) ==> (git_does(texts(r@), m) matches Some((n, ok)) && ok
                && n.files == m.trees[rev@] && n.staged == n.files && n.head == n.files),
{
    proof {
        words_differ();
    }
    let parts: Vec<&str> = vec!["reset", "--hard", "--quiet", rev];
    assert(views(parts@) =~= seq!["reset"@, "--hard"@, "--quiet"@, rev@]);
    args_of(parts)
}

/// Where a commit of everything stands.
#[derive(Debug, Clone, Copy, PartialEq, Eq, Structural)]
pub enum CommitStage {
    /// Everything is being staged.
    Staging,
    /// Whether anything is staged is being asked.
    Comparing,
    Committing,
    /// The new commit is being named.
    Naming,
}

/// What follows in a commit of everything.
#[derive(Debug, PartialEq)]
pub enum CommitMove {
    /// Ask git this, and come back with the answer at this stage.
    Ask { stage: CommitStage, args: Vec<String> },
    /// The new commit, or `None` when there was nothing to commit.
    Finished(Result<Option<String>, GitError>),
}

/// Who commits.
pub open spec fn as_committer(rest: Seq<Seq<char>>) -> Seq<Seq<char>> {
    seq!["-c"@, "user.name="@ + COMMITTER_NAME@, "-c"@, "user.email="@ + COMMITTER_EMAIL@] + rest
}

/// The commands of a commit of everything.
pub open spec fn commit_args(stage: CommitStage, message: Seq<char>) -> Seq<Seq<char>> {
    match stage {
        CommitStage::Staging => seq!["add"@, "--all"@],
        CommitStage::Comparing => seq!["diff"@, "--cached"@, "--quiet"@],
        CommitStage::Committing => as_committer(seq!["commit"@, "--quiet"@, "-m"@, message]),
        CommitStage::Naming => seq!["rev-parse"@, "HEAD"@],
    }
}

fn committer() -> (r: (String, String))
    ensures
        r.0@ == "user.name="@ + COMMITTER_NAME@,
        r.1@ == "user.email="@ + COMMITTER_EMAIL@,
{
    let mut name = "user.name=".to_owned();
    name.append(COMMITTER_NAME);
    let mut email = "user.email=".to_owned();
    email.append(COMMITTER_EMAIL);
    (name, email)
}

fn commit_command(stage: CommitStage, message: &str) -> (r: Vec<String>)
    ensures
        texts(r@) == commit_args(stage, message@),
{
    match stage {
        CommitStage::Staging => {
            let parts: Vec<&str> = vec!["add", "--all"];
            assert(views(parts@) =~= commit_args(stage, message@));
            args_of(parts)
        },
        CommitStage::Comparing => {
            let parts: Vec<&str> = vec!["diff", "--cached", "--quiet"];
            assert(views(parts@) =~= commit_args(stage, message@));
            args_of(parts)
        },
        CommitStage::Committing => {
            let (name, email) = committer();
            let parts: Vec<&str> = vec![
                "-c",
                name.as_str(),
                "-c",
                email.as_str(),
                "commit",
                "--quiet",
                "-m",
                message,
            ];
            assert(views(parts@) =~= commit_args(stage, message@));
            args_of(parts)
        },
        CommitStage::Naming => head_args(),
    }
}

fn ask_commit(stage: CommitStage, message: &str) -> (r: CommitMove)
    ensures
        r matches CommitMove::Ask { stage: s, args } && s == stage && texts(args@) == commit_args(
            stage,
            message@,
        ),
{
    CommitMove::Ask { stage, args: commit_command(stage, message) }
}

/// Starts to stage everything and commit it.
pub fn commit_all(message: &str) -> (r: CommitMove)
    ensures
        r matches CommitMove::Ask { stage, args } && stage == CommitStage::Staging && texts(args@)
            == commit_args(CommitStage::Staging, message@),
{
    ask_commit(CommitStage::Staging, message)
}

/// The stage that follows an answer.
pub open spec fn commit_follows(stage: CommitStage, r: Result<String, GitError>) -> Option<
    CommitStage,
> {
    match (stage, r) {
        (CommitStage::Staging, Ok(_)) => Some(CommitStage::Comparing),
        (CommitStage::Comparing, Err(GitError::Failed { .. })) => Some(CommitStage::Committing),
        (CommitStage::Committing, Ok(_)) => Some(CommitStage::Naming),
        _ => None,
    }
}

/// What comes of a commit that ends with this answer: the name of the commit, or
/// nothing where nothing was staged.
pub open spec fn commit_ends(stage: CommitStage, r: Result<String, GitError>) -> Result<
    Option<String>,
    GitError,
> {
    match (stage, r) {
        (CommitStage::Comparing, Ok(_)) => Ok(None),
        (_, Ok(sha)) => Ok(Some(sha)),
        (_, Err(e)) => Err(e),
    }
}

/// What follows the answer of git at a stage of a commit. Where nothing is
/// staged there is no commit; an error that is not git's own refusal ends it.
pub fn commit_next(stage: CommitStage, message: &str, r: Result<String, GitError>) -> (m: CommitMove)
    ensures
        match commit_follows(stage, r) {
            Some(next) => m matches CommitMove::Ask { stage: s, args } && s == next && texts(args@)
                == commit_args(next, message@),
            None => m == CommitMove::Finished(commit_ends(stage, r)),
        },
{
    match (stage, r) {
        (CommitStage::Staging, Ok(_)) => ask_commit(CommitStage::Comparing, message),
        (CommitStage::Comparing, Ok(_)) => CommitMove::Finished(Ok(None)),
        (CommitStage::Comparing, Err(GitError::Failed { .. })) => ask_commit(
            CommitStage::Committing,
            message,
        ),
        (CommitStage::Committing, Ok(_)) => ask_commit(CommitStage::Naming, message),
        (CommitStage::Naming, Ok(sha)) => CommitMove::Finished(Ok(Some(sha))),
        (_, Err(e)) => CommitMove::Finished(Err(e)),
    }
}

/// Where a merge stands.
#[derive(Debug, Clone, Copy, PartialEq, Eq, Structural)]
pub enum MergeStage {
    Merging,
    /// The merge commit is being named.
    Naming,
    /// The files in conflict are being asked.
    Listing,
    /// The merge is being undone.
    Aborting,
}

/// What follows in a merge.
#[derive(Debug, PartialEq)]
pub enum MergeMove {
    /// Ask git this, and come back with the answer at this stage; `files` is
    /// what git listed as in conflict.
    Ask { stage: MergeStage, files: String, args: Vec<String> },
    /// The merge commit, or why there is none.
    Finished(Result<String, GitError>),
}

/// What a value of type `MergeMove` stands for.
pub enum MergeMoveModel {
    Ask { stage: MergeStage, files: Seq<char>, args: Seq<Seq<char>> },
    Finished(Result<Seq<char>, GitErrorModel>),
}

impl View for MergeMove {
    type V = MergeMoveModel;

    open spec fn view(&self) -> MergeMoveModel {
        match self {
            MergeMove::Ask { stage, files, args } => MergeMoveModel::Ask {
                stage: *stage,
                files: files@,
                args: texts(args@),
            },
            MergeMove::Finished(r) => MergeMoveModel::Finished(seen_result(*r)),
        }
    }
}

/// The commands of a merge.
pub open spec fn merge_args(stage: MergeStage, branch: Seq<char>, message: Seq<char>) -> Seq<
    Seq<char>,
> {
    match stage {
        MergeStage::Merging => as_committer(seq!["merge"@, "--no-ff"@, "-m"@, message, branch]),
        MergeStage::Naming => seq!["rev-parse"@, "HEAD"@],
        MergeStage::Listing => seq!["diff"@, "--name-only"@, "--diff-filter=U"@],
        MergeStage::Aborting => seq!["merge"@, "--abort"@],
    }
}

/// To ask git the command of a stage.
pub open spec fn merge_ask(
    stage: MergeStage,
    files: Seq<char>,
    branch: Seq<char>,
    message: Seq<char>,
) -> MergeMoveModel {
    MergeMoveModel::Ask { stage, files, args: merge_args(stage, branch, message) }
}

/// What follows an answer of git in a merge.
pub open spec fn merge_step(
    stage: MergeStage,
    files: Seq<char>,
    branch: Seq<char>,
    message: Seq<char>,
    r: Result<Seq<char>, GitErrorModel>,
) -> MergeMoveModel {
    match (stage, r) {
        (MergeStage::Merging, Ok(_)) => merge_ask(
            MergeStage::Naming,
            Seq::empty(),
            branch,
            message,
        ),
        (MergeStage::Merging, Err(GitErrorModel::Failed { .. })) => merge_ask(
            MergeStage::Listing,
            Seq::empty(),
            branch,
            message,
        ),
        (MergeStage::Merging, Err(e)) => MergeMoveModel::Finished(Err(e)),
        (MergeStage::Naming, r) => MergeMoveModel::Finished(r),
        (MergeStage::Listing, Ok(listed)) => merge_ask(
            MergeStage::Aborting,
            listed,
            branch,
            message,
        ),
        (MergeStage::Listing, Err(_)) => merge_ask(
            MergeStage::Aborting,
            Seq::empty(),
            branch,
            message,
        ),
        (MergeStage::Aborting, _) => MergeMoveModel::Finished(
            Err(GitErrorModel::MergeConflict { branch, files: lines_of(files) }),
        ),
    }
}

fn ask_merge(stage: MergeStage, files: String, branch: &str, message: &str) -> (r: MergeMove)
    ensures
        r@ == merge_ask(stage, files@, branch@, message@),
{
    let args: Vec<String> = match stage {
        MergeStage::Merging => {
            let (name, email) = committer();
            let parts: Vec<&str> = vec![
                "-c",
                name.as_str(),
                "-c",
                email.as_str(),
                "merge",
                "--no-ff",
                "-m",
                message,
                branch,
            ];
            assert(views(parts@) =~= merge_args(stage, branch@, message@));
            args_of(parts)
        },
        MergeStage::Naming => head_args(),
        MergeStage::Listing => {
            let parts: Vec<&str> = vec!["diff", "--name-only", "--diff-filter=U"];
            assert(views(parts@) =~= merge_args(stage, branch@, message@));
            args_of(parts)
        },
        MergeStage::Aborting => {
            let parts: Vec<&str> = vec!["merge", "--abort"];
            assert(views(parts@) =~= merge_args(stage, branch@, message@));
            args_of(parts)
        },
    };
    MergeMove::Ask { stage, files, args }
}

/// Starts to merge `branch` with a merge commit.
pub fn merge(branch: &str, message: &str) -> (r: MergeMove)
    ensures
        r@ == merge_ask(MergeStage::Merging, Seq::empty(), branch@, message@),
{
    ask_merge(MergeStage::Merging, String::new(), branch, message)
}

/// What follows the answer of git at a stage of a merge. On conflict the merge
/// is aborted, leaving the worktree clean, and the conflicting files are
/// reported.
pub fn merge_next(
    stage: MergeStage,
    files: String,
    branch: &str,
    message: &str,
    r: Result<String, GitError>,
) -> (m: MergeMove)
    ensures
        m@ == merge_step(stage, files@, branch@, message@, seen_result(r)),
{
    match (stage, r) {
        (MergeStage::Merging, Ok(_)) => ask_merge(
            MergeStage::Naming,
            String::new(),
            branch,
            message,
        ),
        (MergeStage::Merging, Err(GitError::Failed { .. })) => ask_merge(
            MergeStage::Listing,
            String::new(),
            branch,
            message,
        ),
        (MergeStage::Merging, Err(e)) => MergeMove::Finished(Err(e)),
        (MergeStage::Naming, r) => MergeMove::Finished(r),
        (MergeStage::Listing, r) => {
            let listed = match r {
                Ok(listed) => listed,
                Err(_) => String::new(),
            };
            ask_merge(MergeStage::Aborting, listed, branch, message)
        },
        (MergeStage::Aborting, _) => MergeMove::Finished(
            Err(
                GitError::MergeConflict {
                    branch: branch.to_owned(),
                    files: lines(files.as_str()),
                },
            ),
        ),
    }
}

/// A refused merge leaves the worktree clean: whatever git answers, the files in
/// conflict are asked, the merge is aborted, and the conflict is reported with
/// the files that were listed.
pub proof fn conflicts_are_aborted(
    branch: Seq<char>,
    message: Seq<char>,
    refused: GitErrorModel,
    listed: Result<Seq<char>, GitErrorModel>,
    aborted: Result<Seq<char>, GitErrorModel>,
)
    requires
        refused is Failed,
    ensures
        ({
            let files = match listed {
                Ok(text) => text,
                Err(_) => Seq::empty(),
            };
            let none = Seq::<char>::empty();
            &&& merge_step(MergeStage::Merging, none, branch, message, Err(refused)) == (
            MergeMoveModel::Ask {
                stage: MergeStage::Listing,
                files: none,
                args: seq!["diff"@, "--name-only"@, "--diff-filter=U"@],
            })
            &&& merge_step(MergeStage::Listing, none, branch, message, listed) == (
            MergeMoveModel::Ask {
                stage: MergeStage::Aborting,
                files,
                args: seq!["merge"@, "--abort"@],
            })
            &&& merge_step(MergeStage::Aborting, files, branch, message, aborted)
                == MergeMoveModel::Finished(
                Err(GitErrorModel::MergeConflict { branch, files: lines_of(files) }),
            )
        }),
{
}

/// A branch without `refs/heads/` in front.
pub open spec fn short_branch(b: Seq<char>) -> Seq<char> {
    if begins(b, "refs/heads/"@) {
        b.skip("refs/heads/"@.len() as int)
    } else {
        b
    }
}

/// What one line adds to an entry of the list of worktrees.
pub open spec fn worktree_line(info: WorktreeInfoModel, line: Seq<char>) -> WorktreeInfoModel {
    if begins(line, "worktree "@) {
        WorktreeInfoModel { path: line.skip("worktree "@.len() as int), ..info }
    } else if begins(line, "HEAD "@) {
        WorktreeInfoModel { head: Some(line.skip("HEAD "@.len() as int)), ..info }
    } else if begins(line, "branch "@) {
        WorktreeInfoModel {
            branch: Some(short_branch(line.skip("branch "@.len() as int))),
            ..info
        }
    } else {
        info
    }
}

/// What lines, one after another, say of a worktree.
pub open spec fn worktree_lines(lines: Seq<Seq<char>>) -> WorktreeInfoModel
    decreases lines.len(),
{
    if lines.len() == 0 {
        WorktreeInfoModel { path: Seq::empty(), head: None, branch: None }
    } else {
        worktree_line(worktree_lines(lines.drop_last()), lines.last())
    }
}

/// The worktrees in blocks, one each; a block without a path is none.
pub open spec fn worktree_blocks(blocks: Seq<Seq<char>>) -> Seq<WorktreeInfoModel>
    decreases blocks.len(),
{
    if blocks.len() == 0 {
        Seq::empty()
    } else {
        let front = worktree_blocks(blocks.drop_last());
        let info = worktree_lines(lines_of(blocks.last()));
        if info.path.len() > 0 {
            front.push(info)
        } else {
            front
        }
    }
}

fn read_worktree(block: &str) -> (r: WorktreeInfo)
    ensures
        r@ == worktree_lines(lines_of(block@)),
{
    let rows = lines(block);
    let ghost all = lines_of(block@);
    let mut info = WorktreeInfo { path: String::new(), head: None, branch: None };
    let mut i: usize = 0;
    assert(info@ =~= worktree_lines(all.take(0)));
    while i < rows.len()
        invariant
            i <= rows.len(),
            texts(rows@) == all,
            info@ == worktree_lines(all.take(i as int)),
        decreases rows.len() - i,
    {
        let line = rows[i].as_str();
        proof {
            assert(all[i as int] == rows@[i as int]@);
            assert(all.take(i + 1).drop_last() =~= all.take(i as int));
        }
        if let Some(p) = drop_prefix(line, "worktree ") {
            info.path = p;
        } else if let Some(h) = drop_prefix(line, "HEAD ") {
            info.head = Some(h);
        } else if let Some(b) = drop_prefix(line, "branch ") {
            info.branch = Some(
                match drop_prefix(b.as_str(), "refs/heads/") {
                    Some(short) => short,
                    None => b,
                },
            );
        }
        i += 1;
    }
    assert(all.take(i as int) =~= all);
    info
}

/// Reads `git worktree list --porcelain`.
pub fn parse_worktree_list(out: &str) -> (r: Vec<WorktreeInfo>)
    ensures
        views(r@) == worktree_blocks(parts_between(out@, "\n\n"@)),
{
    proof {
        reveal_strlit("\n\n");
    }
    let blocks = split_text(out, "\n\n");
    let ghost all = texts(blocks@);
    let mut r: Vec<WorktreeInfo> = Vec::new();
    let mut i: usize = 0;
    assert(views(r@) =~= worktree_blocks(all.take(0)));
    while i < blocks.len()
        invariant
            i <= blocks.len(),
            all == texts(blocks@),
            views(r@) == worktree_blocks(all.take(i as int)),
        decreases blocks.len() - i,
    {
        let info = read_worktree(blocks[i].as_str());
        proof {
            assert(all[i as int] == blocks@[i as int]@);
            assert(all.take(i + 1).drop_last() =~= all.take(i as int));
            views_push(r@, info);
        }
        if !info.path.as_str().is_empty() {
            r.push(info);
        }
        i += 1;
    }
    assert(all.take(i as int) =~= all);
    r
}

/// The text can be cut after `n` bytes.
pub open spec fn cuts_at(s: Seq<char>, n: int) -> bool {
    byte_len(s.take(start_within(s, n))) == n
}

/// Where to cut after `n` bytes, if a character starts there.
fn find_cut(v: &Vec<char>, n: usize) -> (r: Option<usize>)
    ensures
        match r {
            Some(k) => cuts_at(v@, n as int) && k == start_within(v@, n as int) && k <= v@.len(),
            None => !cuts_at(v@, n as int),
        },
{
    let k = find_start_within(v, n);
    let rest = crate::text::bytes_from(v, k);
    let all = crate::text::bytes_from(v, 0);
    proof {
        assert(v@.skip(0) =~= v@);
        assert(v@ =~= v@.take(k as int) + v@.skip(k as int));
        crate::text::byte_len_adds(v@.take(k as int), v@.skip(k as int));
    }
    if all - rest == n as u128 {
        Some(k)
    } else {
        None
    }
}

/// The entries of a status can be cut into a code and a path.
pub open spec fn status_fits(entries: Seq<Seq<char>>) -> bool
    decreases entries.len(),
{
    if entries.len() == 0 {
        true
    } else if byte_len(entries[0]) < 4 {
        status_fits(entries.drop_first())
    } else {
        &&& cuts_at(entries[0], 2)
        &&& cuts_at(entries[0], 3)
        &&& status_fits(after_status(entries))
    }
}

/// The two bytes that tell how a path changed.
pub open spec fn status_code(entry: Seq<char>) -> Seq<char> {
    entry.take(start_within(entry, 2))
}

/// A rename or a copy is followed by the original path.
pub open spec fn has_origin(entry: Seq<char>) -> bool {
    begins(status_code(entry), "R"@) || begins(status_code(entry), "C"@)
}

/// The entries behind the first status.
pub open spec fn after_status(entries: Seq<Seq<char>>) -> Seq<Seq<char>> {
    if has_origin(entries[0]) && entries.len() > 1 {
        entries.skip(2)
    } else {
        entries.drop_first()
    }
}

/// The statuses that entries, one after another, tell. Entries of less than
/// four bytes tell none.
pub open spec fn statuses(entries: Seq<Seq<char>>) -> Seq<FileStatusModel>
    decreases entries.len(),
{
    if entries.len() == 0 {
        Seq::empty()
    } else if byte_len(entries[0]) < 4 {
        statuses(entries.drop_first())
    } else {
        seq![
            FileStatusModel {
                code: status_code(entries[0]),
                path: entries[0].skip(start_within(entries[0], 3)),
                from: if has_origin(entries[0]) && entries.len() > 1 {
                    Some(entries[1])
                } else {
                    None
                },
            },
        ] + statuses(after_status(entries))
    }
}

/// The entries of a status: what stands between NUL characters.
pub open spec fn status_entries(out: Seq<char>) -> Seq<Seq<char>> {
    pieces(out, |c: char| c == '\0').filter(|e: Seq<char>| e.len() > 0)
}

fn ends_entry(c: char) -> (b: bool)
    ensures
        b == (c == '\0'),
{
    c == '\0'
}

fn entries_of(out: &str) -> (r: Vec<String>)
    ensures
        texts(r@) == status_entries(out@),
{
    let ghost sep = |c: char| c == '\0';
    let ghost solid = |e: Seq<char>| e.len() > 0;
    let parts = split_pieces(out, ends_entry, Ghost(sep));
    let ghost all = pieces(out@, sep);
    let mut r: Vec<String> = Vec::new();
    let mut i: usize = 0;
    proof {
        crate::order::filter_none(all, solid);
        assert(texts(r@) =~= all.take(0).filter(solid));
    }
    while i < parts.len()
        invariant
            i <= parts.len(),
            texts(parts@) == all,
            solid == |e: Seq<char>| e.len() > 0,
            texts(r@) == all.take(i as int).filter(solid),
        decreases parts.len() - i,
    {
        proof {
            assert(all[i as int] == parts@[i as int]@);
            crate::order::filter_step(all, solid, i as int);
        }
        if !parts[i].as_str().is_empty() {
            let entry = parts[i].clone();
            proof {
                texts_push(r@, entry);
            }
            r.push(entry);
        }
        i += 1;
    }
    assert(all.take(i as int) =~= all);
    r
}

/// Reads `git status --porcelain=v1 -z`, unless an entry cannot be cut into a
/// code and a path.
pub fn checked_status_z(out: &str) -> (r: Option<Vec<FileStatus>>)
    ensures
        match r {
            Some(v) => status_fits(status_entries(out@)) && views(v@) == statuses(
                status_entries(out@),
            ),
            None => !status_fits(status_entries(out@)),
        },
{
    let entries = entries_of(out);
    let ghost all = status_entries(out@);
    let mut r: Vec<FileStatus> = Vec::new();
    let mut i: usize = 0;
    proof {
        reveal_strlit("R");
        reveal_strlit("C");
        assert(all.skip(0) =~= all);
        assert(views(r@) + statuses(all) =~= statuses(all));
        assert(texts(entries@).len() == entries@.len());
    }
    while i < entries.len()
        invariant
            i <= entries.len(),
            texts(entries@) == all,
            all == status_entries(out@),
            entries.len() == all.len(),
            status_fits(all) == status_fits(all.skip(i as int)),
            views(r@) + statuses(all.skip(i as int)) == statuses(all),
        decreases entries.len() - i,
    {
        let ghost rest = all.skip(i as int);
        let v = chars_of(entries[i].as_str());
        proof {
            assert(all[i as int] == entries@[i as int]@);
            assert(rest[0] == v@);
            assert(rest.drop_first() =~= all.skip(i + 1));
            assert(v@.skip(0) =~= v@);
        }
        if crate::text::bytes_from(&v, 0) < 4 {
            i += 1;
            continue;
        }
        let two = match find_cut(&v, 2) {
            Some(k) => k,
            None => {
                return None;
            },
        };
        let three = match find_cut(&v, 3) {
            Some(k) => k,
            None => {
                return None;
            },
        };
        let code = text_of(&v, 0, two);
        let path = text_of(&v, three, v.len());
        proof {
            assert(code@ =~= status_code(v@));
            assert(path@ =~= v@.skip(three as int));
        }
        let moved = starts_with(code.as_str(), "R") || starts_with(code.as_str(), "C");
        if moved && i + 1 < entries.len() {
            let status = FileStatus { code, path, from: Some(entries[i + 1].clone()) };
            proof {
                assert(rest[1] == entries@[i + 1]@);
                assert(rest.skip(2) =~= all.skip(i + 2));
                views_push(r@, status);
                assert(views(r@) + (seq![status@] + statuses(all.skip(i + 2))) =~= views(r@).push(
                    status@,
                ) + statuses(all.skip(i + 2)));
            }
            r.push(status);
            i += 2;
        } else {
            let status = FileStatus { code, path, from: None };
            proof {
                views_push(r@, status);
                assert(views(r@) + (seq![status@] + statuses(all.skip(i + 1))) =~= views(r@).push(
                    status@,
                ) + statuses(all.skip(i + 1)));
            }
            r.push(status);
            i += 1;
        }
    }
    proof {
        assert(views(r@) + Seq::<FileStatusModel>::empty() =~= views(r@));
    }
    Some(r)
}

/// Reads `git status --porcelain=v1 -z`.
pub fn parse_status_z(out: &str) -> (r: Vec<FileStatus>)
    requires
        status_fits(status_entries(out@)),
    ensures
        views(r@) == statuses(status_entries(out@)),
{
    match checked_status_z(out) {
        Some(v) => v,
        None => Vec::new(),
    }
}

/// The counts of one line of `git diff --numstat`: added, removed and path,
/// with tabs between. A count that is no number is unknown.
pub open spec fn numstat_line(line: Seq<char>) -> Option<FileDiffStatModel> {
    let tab = |c: char| c == '\t';
    let a = find_first(line, tab);
    let rest = line.skip(a + 1);
    let b = find_first(rest, tab);
    if a >= line.len() || b >= rest.len() {
        None
    } else {
        Some(
            FileDiffStatModel {
                path: rest.skip(b + 1),
                added: count_in(line.take(a)),
                removed: count_in(rest.take(b)),
            },
        )
    }
}

/// A count, where the text is one.
pub open spec fn count_in(s: Seq<char>) -> Option<u64> {
    match u64_in(s) {
        Some(n) => Some(n as u64),
        None => None,
    }
}

/// The counts of lines, one after another.
pub open spec fn numstats(lines: Seq<Seq<char>>) -> Seq<FileDiffStatModel>
    decreases lines.len(),
{
    if lines.len() == 0 {
        Seq::empty()
    } else {
        match numstat_line(lines.last()) {
            Some(stat) => numstats(lines.drop_last()).push(stat),
            None => numstats(lines.drop_last()),
        }
    }
}

fn is_tab(c: char) -> (b: bool)
    ensures
        b == (c == '\t'),
{
    c == '\t'
}

fn read_numstat(line: &str) -> (r: Option<FileDiffStat>)
    ensures
        seen(r) == numstat_line(line@),
{
    let ghost tab = |c: char| c == '\t';
    let v = chars_of(line);
    let a = find_char(&v, 0, v.len(), is_tab, Ghost(tab));
    assert(v@.subrange(0, v@.len() as int) =~= line@);
    if a >= v.len() {
        return None;
    }
    let b = find_char(&v, a + 1, v.len(), is_tab, Ghost(tab));
    let ghost rest = line@.skip(a + 1);
    proof {
        assert(v@.subrange(a + 1, v@.len() as int) =~= rest);
        find_first_bounds(rest, tab);
    }
    if b >= v.len() {
        return None;
    }
    let added = text_of(&v, 0, a);
    let removed = text_of(&v, a + 1, b);
    let path = text_of(&v, b + 1, v.len());
    proof {
        assert(added@ =~= line@.take(a as int));
        assert(removed@ =~= rest.take(b - a - 1));
        assert(path@ =~= rest.skip(b - a - 1 + 1));
    }
    Some(
        FileDiffStat {
            path,
            added: parse_u64(added.as_str()),
            removed: parse_u64(removed.as_str()),
        },
    )
}

/// Reads `git diff --numstat`.
pub fn parse_numstat(out: &str) -> (r: Vec<FileDiffStat>)
    ensures
        views(r@) == numstats(lines_of(out@)),
{
    let rows = lines(out);
    let ghost all = lines_of(out@);
    let mut r: Vec<FileDiffStat> = Vec::new();
    let mut i: usize = 0;
    assert(views(r@) =~= numstats(all.take(0)));
    while i < rows.len()
        invariant
            i <= rows.len(),
            texts(rows@) == all,
            views(r@) == numstats(all.take(i as int)),
        decreases rows.len() - i,
    {
        proof {
            assert(all[i as int] == rows@[i as int]@);
            assert(all.take(i + 1).drop_last() =~= all.take(i as int));
        }
        if let Some(stat) = read_numstat(rows[i].as_str()) {
            proof {
                views_push(r@, stat);
            }
            r.push(stat);
        }
        i += 1;
    }
    assert(all.take(i as int) =~= all);
    r
}

/// Whether some worktree has the branch checked out.
pub fn is_checked_out(list: &Vec<WorktreeInfo>, branch: &str) -> (b: bool)
    ensures
        b == exists|i: int|
            0 <= i < list@.len() && (#[trigger] views(list@)[i]).branch == Some(branch@),
{
    let mut i: usize = 0;
    while i < list.len()
        invariant
            i <= list.len(),
            forall|k: int| 0 <= k < i ==> (#[trigger] views(list@)[k]).branch != Some(branch@),
        decreases list.len() - i,
    {
        assert(views(list@)[i as int] == list@[i as int]@);
        if let Some(name) = &list[i].branch {
            if same(name.as_str(), branch) {
                return true;
            }
        }
        i += 1;
    }
    false
}

/// What a clone holds, as far as the commands asked of git change it: trees of files
/// by number.
#[verifier::ext_equal]
pub struct CloneModel {
    /// The tree of the commit that is checked out.
    pub head: int,
    /// The tree that is staged.
    pub staged: int,
    /// The tree of the files in the worktree.
    pub files: int,
    /// The messages of the commits that were made, the last one at the end.
    pub messages: Seq<Seq<char>>,
    /// The trees of revisions.
    pub trees: Map<Seq<char>, int>,
    /// The trees that branches are at.
    pub branches: Map<Seq<char>, int>,
    /// The branches that are checked out, by the paths of their worktrees.
    pub worktrees: Map<Seq<char>, Seq<char>>,
}

/// What git does when it is asked this, and whether it succeeds; nothing is said of
/// other commands.
pub open spec fn git_does(args: Seq<Seq<char>>, m: CloneModel) -> Option<(CloneModel, bool)> {
    if args == seq!["add"@, "--all"@] {
        Some((CloneModel { staged: m.files, ..m }, true))
    } else if args == seq!["diff"@, "--quiet"@] {
        Some((m, m.files == m.staged))
    } else if args == seq!["diff"@, "--cached"@, "--quiet"@] {
        Some((m, m.staged == m.head))
    } else if args == seq!["rev-parse"@, "HEAD"@] {
        Some((m, true))
    } else if args.len() == 4 && args[0] == "reset"@ && args[1] == "--hard"@ && args[2]
        == "--quiet"@ {
        if m.trees.dom().contains(args[3]) {
            let tree = m.trees[args[3]];
            Some((CloneModel { head: tree, staged: tree, files: tree, ..m }, true))
        } else {
            Some((m, false))
        }
    } else if args.len() == 6 && args[0] == "worktree"@ && args[1] == "add"@ && args[2] == "-b"@ {
        let branch = args[3];
        let path = args[4];
        let base = args[5];
        if !m.branches.dom().contains(branch) && m.trees.dom().contains(base) {
            Some(
                (
                    CloneModel {
                        branches: m.branches.insert(branch, m.trees[base]),
                        worktrees: m.worktrees.insert(path, branch),
                        ..m
                    },
                    true,
                ),
            )
        } else {
            Some((m, false))
        }
    } else if args.len() == 4 && args[0] == "worktree"@ && args[1] == "add"@ {
        if m.branches.dom().contains(args[3]) {
            Some((CloneModel { worktrees: m.worktrees.insert(args[2], args[3]), ..m }, true))
        } else {
            Some((m, false))
        }
    } else if args.len() == 8 && args[0] == "-c"@ && args[2] == "-c"@ && args[4] == "commit"@
        && args[5] == "--quiet"@ && args[6] == "-m"@ {
        if m.staged == m.head {
            Some((m, false))
        } else {
            Some((CloneModel { head: m.staged, messages: m.messages.push(args[7]), ..m }, true))
        }
    } else {
        None
    }
}

/// The words of git's commands are different words.
proof fn words_differ()
    ensures
        "add"@ != "diff"@,
        "add"@ != "rev-parse"@,
        "diff"@ != "rev-parse"@,
        "reset"@ != "worktree"@,
        "--quiet"@ != "HEAD"@,
{
    reveal_strlit("add");
    reveal_strlit("diff");
    reveal_strlit("rev-parse");
    reveal_strlit("reset");
    reveal_strlit("worktree");
    assert("add"@.len() == 3 && "diff"@.len() == 4 && "rev-parse"@.len() == 9);
    assert("reset"@.len() == 5 && "worktree"@.len() == 8);
    reveal_strlit("--quiet");
    reveal_strlit("HEAD");
    assert("--quiet"@.len() == 7 && "HEAD"@.len() == 4);
}

/// An agent's work is committed: whatever is in the worktree, new files too, is in a
/// commit with the given message where it differs from the last one, whose name is the
/// answer; where it does not, there is no commit and no name.
pub proof fn work_is_committed(
    m: CloneModel,
    message: Seq<char>,
    done: Result<String, GitError>,
    refused: Result<String, GitError>,
    sha: String,
)
    requires
        done is Ok,
        refused matches Err(GitError::Failed { .. }),
    ensures
        git_does(commit_args(CommitStage::Staging, message), m) matches Some((a, ok)) && ok && {
            &&& commit_follows(CommitStage::Staging, done) == Some(CommitStage::Comparing)
            &&& git_does(commit_args(CommitStage::Comparing, message), a) matches Some((b, same))
            &&& b.files == m.files && b.head == m.head
            &&& m.files == m.head ==> same
            &&& m.files != m.head ==> !same
            &&& commit_follows(CommitStage::Comparing, done) is None
            &&& commit_ends(CommitStage::Comparing, done) == Ok::<Option<String>, GitError>(None)
            &&& commit_follows(CommitStage::Comparing, refused) == Some(CommitStage::Committing)
            &&& m.files != m.head ==> {
                &&& git_does(commit_args(CommitStage::Committing, message), b) matches Some((c, ok))
                &&& ok && c.head == m.files && c.files == m.files && c.messages
                    == m.messages.push(message)
                &&& commit_follows(CommitStage::Committing, done) == Some(CommitStage::Naming)
                &&& git_does(commit_args(CommitStage::Naming, message), c) == Some((c, true))
                &&& commit_follows(CommitStage::Naming, Ok(sha)) is None
                &&& commit_ends(CommitStage::Naming, Ok(sha)) == Ok::<_, GitError>(Some(sha))
            }
        },
{
    words_differ();
    let staging = commit_args(CommitStage::Staging, message);
    let comparing = commit_args(CommitStage::Comparing, message);
    let committing = commit_args(CommitStage::Committing, message);
    let naming = commit_args(CommitStage::Naming, message);
    assert(staging =~= seq!["add"@, "--all"@]);
    assert(comparing.len() == 3);
    assert(comparing != seq!["add"@, "--all"@] && comparing != seq!["diff"@, "--quiet"@]);
    assert(committing.len() == 8);
    assert(committing[7] == message);
    assert(naming[0] == "rev-parse"@);
    assert(naming != seq!["add"@, "--all"@]) by {
        assert(seq!["add"@, "--all"@][0] == "add"@);
    }
    assert(naming != seq!["diff"@, "--quiet"@]) by {
        assert(seq!["diff"@, "--quiet"@][0] == "diff"@);
    }
}

/// An error of git other than its refusal ends a commit, and is what comes of it.
pub proof fn broken_commits_end(stage: CommitStage, e: GitError)
    requires
        !(e is Failed),
    ensures
        commit_follows(stage, Err(e)) is None,
        commit_ends(stage, Err(e)) == Err::<Option<String>, _>(e),
{
}

/// A merge takes the branch that is named, with the message that is given, as a commit
/// of its own even where it could be had without one; and is followed by asking for the
/// name of that commit, which is what comes of it.
pub proof fn merges_take_the_branch(
    branch: Seq<char>,
    message: Seq<char>,
    files: Seq<char>,
    done: Seq<char>,
    sha: Seq<char>,
)
    ensures
        merge_ask(MergeStage::Merging, files, branch, message) matches MergeMoveModel::Ask {
            stage,
            args,
            ..
        } && stage == MergeStage::Merging && args.len() == 9 && args.skip(4) == seq![
            "merge"@,
            "--no-ff"@,
            "-m"@,
            message,
            branch,
        ],
        merge_step(MergeStage::Merging, files, branch, message, Ok(done)) matches
            MergeMoveModel::Ask { stage, args, .. } && stage == MergeStage::Naming && args == seq![
            "rev-parse"@,
            "HEAD"@,
        ],
        merge_step(MergeStage::Naming, files, branch, message, Ok(sha))
            == MergeMoveModel::Finished(Ok(sha)),
{
    let args = merge_args(MergeStage::Merging, branch, message);
    assert(args.skip(4) =~= seq!["merge"@, "--no-ff"@, "-m"@, message, branch]);
}

/// An error of git other than its refusal is no conflict: it ends a merge as it is.
pub proof fn broken_merges_end(
    branch: Seq<char>,
    message: Seq<char>,
    files: Seq<char>,
    e: GitErrorModel,
)
    requires
        !(e is Failed),
    ensures
        merge_step(MergeStage::Merging, files, branch, message, Err(e))
            == MergeMoveModel::Finished(Err(e)),
{
}

/// Commits are made in the name of the library: the name and the address are given
/// with the command.
pub proof fn commits_are_signed(message: Seq<char>, branch: Seq<char>)
    ensures
        commit_args(CommitStage::Committing, message).take(4) == seq![
            "-c"@,
            "user.name="@ + "Bodega"@,
            "-c"@,
            "user.email="@ + "bodega@localhost"@,
        ],
        merge_args(MergeStage::Merging, branch, message).take(4) == commit_args(
            CommitStage::Committing,
            message,
        ).take(4),
{
    let a = commit_args(CommitStage::Committing, message);
    let b = merge_args(MergeStage::Merging, branch, message);
    let who = seq![
        "-c"@,
        "user.name="@ + "Bodega"@,
        "-c"@,
        "user.email="@ + "bodega@localhost"@,
    ];
    assert(a.take(4) =~= who);
    assert(b.take(4) =~= who);
}

/// Git's refusal is a failure with its exit code and what it said; its success is what
/// it printed, without the line end.
pub proof fn answers_are_read(
    args: Seq<Seq<char>>,
    success: bool,
    code: Option<i32>,
    stdout: Seq<char>,
    stderr: Seq<char>,
)
    ensures
        ({
            let r = git_result(args, success, code, stdout, stderr);
            &&& r is Ok <==> success
            &&& r matches Ok(t) ==> begins(stdout, t) && (t.len() > 0 ==> t.last() != '\n')
            &&& r matches Err(e) ==> (e matches GitErrorModel::Failed {
                code: exit,
                stderr: said,
                command,
            } && exit == code && said == trimmed(stderr) && command == join(args, " "@))
        }),
{
    let k = crate::text::right_trim_takes(stdout);
    assert(stdout.take(k).len() == k);
}

/// The lines of a worktree are read back: its path, the commit it is at, and its
/// branch without the part that all branches share. Other lines say nothing.
pub proof fn worktree_lines_are_read(
    info: WorktreeInfoModel,
    text: Seq<char>,
)
    ensures
        worktree_line(info, "worktree "@ + text) == (WorktreeInfoModel { path: text, ..info }),
        worktree_line(info, "HEAD "@ + text) == (WorktreeInfoModel { head: Some(text), ..info }),
        worktree_line(info, "branch refs/heads/"@ + text) == (WorktreeInfoModel {
            branch: Some(text),
            ..info
        }),
        worktree_line(info, "detached"@) == info,
{
    reveal_strlit("worktree ");
    reveal_strlit("HEAD ");
    reveal_strlit("branch ");
    reveal_strlit("refs/heads/");
    reveal_strlit("branch refs/heads/");
    reveal_strlit("detached");
    let a = "worktree "@ + text;
    assert(a.take(9) =~= "worktree "@);
    assert(a.skip(9) =~= text);
    let b = "HEAD "@ + text;
    assert(b.take(5) =~= "HEAD "@);
    assert(b[0] == 'H');
    if b.len() >= 9 {
        assert(b.take(9)[0] != "worktree "@[0]);
    }
    assert(b.skip(5) =~= text);
    let c = "branch refs/heads/"@ + text;
    let rest = "refs/heads/"@ + text;
    assert(c.take(7) =~= "branch "@);
    assert(c.skip(7) =~= rest);
    assert(rest.take(11) =~= "refs/heads/"@);
    assert(rest.skip(11) =~= text);
    assert(c.take(9)[0] != "worktree "@[0]);
    assert(c.take(5)[0] != "HEAD "@[0]);
    let d = "detached"@;
    assert(d.take(5)[0] != "HEAD "@[0]);
    assert(d.take(7)[0] != "branch "@[0]);
}

/// A file's status is read as its two letters and its path. After one that was renamed or
/// copied the next entry is where it came from, and no file of its own.
#[verifier::rlimit(60)]
pub proof fn statuses_are_read(code: Seq<char>, path: Seq<char>, rest: Seq<Seq<char>>)
    requires
        code.len() == 2,
        (code[0] as u32) < 0x80,
        (code[1] as u32) < 0x80,
        path.len() > 0,
    ensures
        ({
            let entries = seq![code + seq![' '] + path] + rest;
            let moved = code[0] == 'R' || code[0] == 'C';
            &&& statuses(entries) == if moved && rest.len() > 0 {
                seq![FileStatusModel { code, path, from: Some(rest[0]) }] + statuses(
                    rest.drop_first(),
                )
            } else {
                seq![FileStatusModel { code, path, from: None }] + statuses(rest)
            }
            &&& status_fits(entries) == status_fits(
                if moved && rest.len() > 0 {
                    rest.drop_first()
                } else {
                    rest
                },
            )
        }),
{
    let entry = code + seq![' '] + path;
    let entries = seq![entry] + rest;
    let head = code.push(' ');
    assert(entry =~= code + (seq![' '] + path));
    assert(entry =~= head + path);
    plain_characters_take_a_byte(code, seq![' '] + path);
    plain_characters_take_a_byte(head, path);
    assert(entry.take(2) =~= code);
    assert(entry.take(3) =~= head);
    assert(entry.skip(3) =~= path);
    byte_len_adds(head, path);
    crate::text::byte_len_step(path, 0);
    assert(path.skip(0) =~= path);
    assert(status_code(entry) == code);
    reveal_strlit("R");
    reveal_strlit("C");
    assert(code.take(1)[0] == code[0]);
    assert(begins(code, "R"@) == (code[0] == 'R')) by {
        if code[0] == 'R' {
            assert(code.take(1) =~= "R"@);
        }
    }
    assert(begins(code, "C"@) == (code[0] == 'C')) by {
        if code[0] == 'C' {
            assert(code.take(1) =~= "C"@);
        }
    }
    assert(entries[0] == entry);
    assert(entries.drop_first() =~= rest);
    if rest.len() > 0 {
        assert(entries.skip(2) =~= rest.drop_first());
        assert(entries[1] == rest[0]);
    }
}

/// Entries end at the zero character, and none is empty.
pub proof fn entries_end_at_zeros(entry: Seq<char>, rest: Seq<char>)
    requires
        forall|i: int| 0 <= i < entry.len() ==> #[trigger] entry[i] != '\0',
    ensures
        status_entries(entry.push('\0') + rest) == if entry.len() > 0 {
            seq![entry] + status_entries(rest)
        } else {
            status_entries(rest)
        },
{
    let sep = |c: char| c == '\0';
    let p = |e: Seq<char>| e.len() > 0;
    whole_texts_are_one_piece(entry, sep);
    pieces_part_at_separators(entry, '\0', rest, sep);
    let more = pieces(rest, sep);
    Seq::filter_distributes_over_add(seq![entry], more, p);
    reveal(Seq::filter);
    let none = Seq::<Seq<char>>::empty();
    assert(seq![entry].drop_last() =~= none);
    assert(none.filter(p) =~= none);
    if entry.len() > 0 {
        assert(seq![entry].filter(p) =~= seq![entry]);
    } else {
        assert(seq![entry].filter(p) =~= none);
        assert(none + more.filter(p) =~= more.filter(p));
    }
}

/// What a line says was added and removed is read as it stands there, and so is the path.
/// Dashes stand for what cannot be counted.
pub proof fn counted_lines_are_read(added: u64, removed: u64, path: Seq<char>)
    ensures
        numstat_line(
            decimal(added as int) + seq!['\t'] + (decimal(removed as int) + seq!['\t'] + path),
        ) == Some(FileDiffStatModel { path, added: Some(added), removed: Some(removed) }),
        numstat_line(seq!['-'] + seq!['\t'] + (seq!['-'] + seq!['\t'] + path)) == Some(
            FileDiffStatModel { path, added: None, removed: None },
        ),
        (forall|i: int| 0 <= i < path.len() ==> #[trigger] path[i] != '\t') ==> numstat_line(path)
            is None,
{
    let tab = |c: char| c == '\t';
    let a = decimal(added as int);
    let b = decimal(removed as int);
    decimals_read_back(added as int);
    decimals_read_back(removed as int);
    assert forall|i: int| 0 <= i < a.len() implies !tab(#[trigger] a[i]) by {
        assert(crate::text::is_digit(a[i]));
    }
    assert forall|i: int| 0 <= i < b.len() implies !tab(#[trigger] b[i]) by {
        assert(crate::text::is_digit(b[i]));
    }
    counted_line_is(a, b, path);
    counts_read_back(added, path, 0);
    counts_read_back(removed, path, 0);
    let dash = seq!['-'];
    counted_line_is(dash, dash, path);
    reveal_strlit("+");
    assert(dash.take(1)[0] == '-');
    assert(!crate::text::is_digit(dash[0]));
    if forall|i: int| 0 <= i < path.len() ==> #[trigger] path[i] != '\t' {
        nothing_is_found(path, tab);
    }
}

proof fn counted_line_is(a: Seq<char>, b: Seq<char>, path: Seq<char>)
    requires
        forall|i: int| 0 <= i < a.len() ==> #[trigger] a[i] != '\t',
        forall|i: int| 0 <= i < b.len() ==> #[trigger] b[i] != '\t',
    ensures
        numstat_line(a + seq!['\t'] + (b + seq!['\t'] + path)) == Some(
            FileDiffStatModel { path, added: count_in(a), removed: count_in(b) },
        ),
{
    let tab = |c: char| c == '\t';
    let rest = b + seq!['\t'] + path;
    let line = a + seq!['\t'] + rest;
    first_is_found(a, '\t', rest, tab);
    first_is_found(b, '\t', path, tab);
    let n = a.len() as int;
    let m = b.len() as int;
    assert(line.take(n) =~= a);
    assert(line.skip(n + 1) =~= rest);
    assert(rest.take(m) =~= b);
    assert(rest.skip(m + 1) =~= path);
}

/// Every line with two counts and a path is listed, in the order of the lines, and nothing
/// else is.
pub proof fn all_counts_are_listed(lines: Seq<Seq<char>>, more: Seq<Seq<char>>, line: Seq<char>)
    ensures
        numstats(lines + more) == numstats(lines) + numstats(more),
        numstat_line(line) matches Some(stat) ==> numstats(seq![line]) == seq![stat],
        numstat_line(line) is None ==> numstats(seq![line]).len() == 0,
    decreases more.len(),
{
    let none = Seq::<Seq<char>>::empty();
    assert(seq![line].drop_last() =~= none);
    assert(numstats(none) =~= Seq::<FileDiffStatModel>::empty());
    if numstat_line(line) is Some {
        assert(numstats(seq![line]) =~= seq![numstat_line(line)->0]);
    }
    if more.len() == 0 {
        assert(lines + more =~= lines);
        assert(numstats(lines) + numstats(more) =~= numstats(lines));
    } else {
        let all = lines + more;
        assert(all.drop_last() =~= lines + more.drop_last());
        all_counts_are_listed(lines, more.drop_last(), line);
        assert(numstats(all) =~= numstats(lines) + numstats(more));
    }
}

/// Every block that names a directory is a worktree, in the order of the blocks, and nothing
/// else is.
#[verifier::rlimit(60)]
pub proof fn all_worktrees_are_listed(
    blocks: Seq<Seq<char>>,
    more: Seq<Seq<char>>,
    path: Seq<char>,
)
    requires
        path.len() > 0,
        forall|i: int| 0 <= i < path.len() ==> #[trigger] path[i] != '\n',
    ensures
        worktree_blocks(blocks + more) == worktree_blocks(blocks) + worktree_blocks(more),
        worktree_blocks(seq!["worktree "@ + path]) == seq![
            WorktreeInfoModel { path, head: None, branch: None },
        ],
        worktree_blocks(seq![Seq::empty()]).len() == 0,
    decreases more.len(),
{
    let none = Seq::<Seq<char>>::empty();
    let block = "worktree "@ + path;
    reveal_strlit("worktree ");
    assert(forall|i: int| 0 <= i < block.len() ==> #[trigger] block[i] != '\n');
    lines_end_at_line_feeds(block, Seq::empty());
    lines_end_at_line_feeds(Seq::empty(), Seq::empty());
    assert(seq![block].drop_last() =~= none);
    assert(seq![Seq::<char>::empty()].drop_last() =~= none);
    assert(worktree_blocks(none) =~= Seq::<WorktreeInfoModel>::empty());
    assert(block.take("worktree "@.len() as int) =~= "worktree "@);
    assert(block.skip("worktree "@.len() as int) =~= path);
    assert(worktree_lines(none) == (WorktreeInfoModel {
        path: Seq::empty(),
        head: None,
        branch: None,
    }));
    assert(worktree_lines(seq![block]) == worktree_line(worktree_lines(none), block));
    assert(worktree_blocks(seq![block]) =~= seq![
        WorktreeInfoModel { path, head: None, branch: None },
    ]);
    if more.len() == 0 {
        assert(blocks + more =~= blocks);
        assert(worktree_blocks(blocks) + worktree_blocks(more) =~= worktree_blocks(blocks));
    } else {
        let all = blocks + more;
        assert(all.drop_last() =~= blocks + more.drop_last());
        all_worktrees_are_listed(blocks, more.drop_last(), path);
        assert(worktree_blocks(all) =~= worktree_blocks(blocks) + worktree_blocks(more));
    }
}

} // verus!
