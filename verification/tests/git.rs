use bodega::git::{
    add_worktree_args, attach_worktree_args, branch_exists_args, branch_named, commit_all,
    commit_next, current_branch_args, delete_branch_args, diff_args, diff_numstat_args, head_args,
    is_checked_out, list_worktrees_args, merge, merge_next, open_args, opened, parse_numstat,
    parse_status_z, parse_worktree_list, read_git, remove_worktree_args, reset_hard_args,
    rev_parse_args, show_file_args, shown, status_args, succeeded, CommitMove, CommitStage,
    GitError, MergeMove, MergeStage,
};

fn failed(stderr: &str) -> GitError {
    GitError::Failed { command: "x".into(), code: Some(1), stderr: stderr.into() }
}

#[test]
fn parses_porcelain_outputs() {
    let list =
        "worktree /r\nHEAD abc\nbranch refs/heads/main\n\nworktree /r/wt\nHEAD def\ndetached\n";
    let parsed = parse_worktree_list(list);
    assert_eq!(parsed.len(), 2);
    assert_eq!(parsed[0].branch.as_deref(), Some("main"));
    assert_eq!(parsed[1].branch, None);

    let status = parse_status_z("R  new.rs\0old.rs\0?? untracked.txt\0 M lib.rs\0");
    assert_eq!(status.len(), 3);
    assert_eq!(status[0].from.as_deref(), Some("old.rs"));
    assert_eq!(status[1].code, "??");

    let numstat = parse_numstat("3\t1\tsrc/lib.rs\n-\t-\tlogo.png\n");
    assert_eq!(numstat[1].added, None);
    assert_eq!(numstat[0].added, Some(3));
}

#[test]
fn worktrees_are_found_by_their_branch() {
    let list = parse_worktree_list("worktree /r\nHEAD abc\nbranch refs/heads/main\n");
    assert!(is_checked_out(&list, "main"));
    assert!(!is_checked_out(&list, "mai"));
    assert_eq!(list[0].head.as_deref(), Some("abc"));
    assert_eq!(list[0].path, "/r");
}

#[test]
fn answers_of_git_are_read() {
    let args = status_args();
    assert_eq!(read_git(&args, true, Some(0), "out\n\n", ""), Ok("out".into()));
    let err = read_git(&args, false, Some(128), "", " fatal: x \n").unwrap_err();
    assert!(matches!(&err, GitError::Failed { code: Some(128), stderr, .. } if stderr == "fatal: x"));
    assert_eq!(succeeded(Ok("x".into())), Ok(true));
    assert_eq!(succeeded(Err(failed("no"))), Ok(false));
    let gone = GitError::Spawn { message: "no git".into() };
    assert_eq!(succeeded(Err(gone.clone())), Err(gone));
    assert_eq!(shown(Err(failed("no"))), Ok(None));
    assert_eq!(shown(Ok("text".into())), Ok(Some("text".into())));
    assert_eq!(branch_named("HEAD".into()), None);
    assert_eq!(branch_named("main".into()).as_deref(), Some("main"));
}

#[test]
fn open_outside_a_repo_is_told() {
    assert_eq!(
        opened("/tmp/x", Err(failed("not a git repository"))),
        Err(GitError::NotARepo { path: "/tmp/x".into() })
    );
    assert_eq!(opened("/tmp/x", Ok("/tmp".into())).unwrap().root(), "/tmp");
}

#[test]
fn git_errors_read_well() {
    assert_eq!(failed("boom").message(), "`git x` exited with Some(1): boom");
    assert_eq!(
        GitError::MergeConflict { branch: "b".into(), files: vec!["x".into(), "y".into()] }
            .message(),
        "merging `b` conflicted in: x, y"
    );
    assert_eq!(
        GitError::NotARepo { path: "/x".into() }.message(),
        "`/x` is not inside a git repository"
    );
    assert_eq!(GitError::Spawn { message: "e".into() }.message(), "failed to run git: e");
}

#[test]
fn new_worktrees_get_a_branch() {
    let args = add_worktree_args("/w", "b", "main");
    assert_eq!(args, ["worktree", "add", "-b", "b", "/w", "main"]);
}

fn ask_commit(m: CommitMove) -> (CommitStage, Vec<String>) {
    match m {
        CommitMove::Ask { stage, args } => (stage, args),
        other => panic!("unexpected {other:?}"),
    }
}

#[test]
fn a_commit_needs_changes() {
    let (stage, args) = ask_commit(commit_all("m"));
    assert_eq!(args, ["add", "--all"]);
    let (stage, _) = ask_commit(commit_next(stage, "m", Ok(String::new())));
    assert_eq!(stage, CommitStage::Comparing);
    assert_eq!(
        commit_next(stage, "m", Ok(String::new())),
        CommitMove::Finished(Ok(None))
    );
    let (stage, args) = ask_commit(commit_next(stage, "m", Err(failed(""))));
    assert_eq!(stage, CommitStage::Committing);
    assert!(args.contains(&"m".to_string()));
    let (stage, _) = ask_commit(commit_next(stage, "m", Ok(String::new())));
    assert_eq!(
        commit_next(stage, "m", Ok("abc".into())),
        CommitMove::Finished(Ok(Some("abc".into())))
    );
    let gone = GitError::Spawn { message: "no git".into() };
    assert_eq!(
        commit_next(CommitStage::Staging, "m", Err(gone.clone())),
        CommitMove::Finished(Err(gone))
    );
}

fn ask_merge(m: MergeMove) -> (MergeStage, String, Vec<String>) {
    match m {
        MergeMove::Ask { stage, files, args } => (stage, files, args),
        other => panic!("unexpected {other:?}"),
    }
}

#[test]
fn a_conflicting_merge_is_undone_and_reported() {
    let (stage, files, _) = ask_merge(merge("b", "merge b"));
    let (stage, files, _) = ask_merge(merge_next(stage, files, "b", "merge b", Err(failed(""))));
    assert_eq!(stage, MergeStage::Listing);
    let (stage, files, args) =
        ask_merge(merge_next(stage, files, "b", "merge b", Ok("README.md".into())));
    assert_eq!(args, ["merge", "--abort"]);
    let end = merge_next(stage, files, "b", "merge b", Ok(String::new()));
    assert_eq!(
        end,
        MergeMove::Finished(Err(GitError::MergeConflict {
            branch: "b".into(),
            files: vec!["README.md".into()]
        }))
    );
    let (stage, files, _) = ask_merge(merge("a", "merge a"));
    let (stage, files, args) = ask_merge(merge_next(stage, files, "a", "m", Ok(String::new())));
    assert_eq!(args, ["rev-parse", "HEAD"]);
    assert_eq!(
        merge_next(stage, files, "a", "m", Ok("abc".into())),
        MergeMove::Finished(Ok("abc".into()))
    );
}

#[test]
fn a_refused_merge_is_always_aborted() {
    let (stage, files, _) = ask_merge(merge("b", "m"));
    let gone = GitError::Spawn { message: "no git".into() };
    assert_eq!(
        merge_next(stage, files.clone(), "b", "m", Err(gone.clone())),
        MergeMove::Finished(Err(gone.clone()))
    );
    let (stage, files, args) = ask_merge(merge_next(stage, files, "b", "m", Err(failed("no"))));
    assert_eq!(args, ["diff", "--name-only", "--diff-filter=U"]);
    // The files cannot be listed, and the merge cannot be aborted.
    let (stage, files, args) = ask_merge(merge_next(stage, files, "b", "m", Err(gone.clone())));
    assert_eq!((stage, args.join(" ")), (MergeStage::Aborting, "merge --abort".to_string()));
    assert_eq!(
        merge_next(stage, files, "b", "m", Err(gone)),
        MergeMove::Finished(Err(GitError::MergeConflict { branch: "b".into(), files: vec![] }))
    );
}

#[test]
fn git_is_asked_in_its_own_words() {
    for (args, line) in [
        (open_args(), "rev-parse --show-toplevel"),
        (rev_parse_args("main"), "rev-parse --verify main^{commit}"),
        (current_branch_args(), "rev-parse --abbrev-ref HEAD"),
        (branch_exists_args("b"), "show-ref --verify --quiet refs/heads/b"),
        (attach_worktree_args("/w", "b"), "worktree add /w b"),
        (remove_worktree_args("/w", true), "worktree remove --force /w"),
        (remove_worktree_args("/w", false), "worktree remove /w"),
        (list_worktrees_args(), "worktree list --porcelain"),
        (show_file_args("main", "a.toml"), "show main:a.toml"),
        (delete_branch_args("b", true), "branch -D b"),
        (delete_branch_args("b", false), "branch -d b"),
        (status_args(), "status --porcelain=v1 -z --untracked-files=all"),
        (head_args(), "rev-parse HEAD"),
        (diff_numstat_args("main"), "diff --numstat main...HEAD"),
        (diff_args("main"), "diff main...HEAD"),
        (reset_hard_args("abc"), "reset --hard --quiet abc"),
    ] {
        assert_eq!(args.join(" "), line);
    }
}
