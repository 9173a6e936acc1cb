use ase_shell::commands::columns::print_columns;
use ase_shell::commands::ls::{
    colorize_ls_entry, display_name, file_line, listing_entries, listing_header, long_listing,
    missing_path_message, parse_ls_args,
};
use ase_shell::paths::file_name_of;
use ase_shell::repl::{branches_from_output, highlight, highlight_with, plan_completion, CompletionPlan};
use ase_shell::commands::needs_more_input;
use ase_shell::utils::{branch_from_head, first_git_dir, format_prompt, git_dir_candidates};

fn strings(v: &[&str]) -> Vec<String> {
    v.iter().map(|s| s.to_string()).collect()
}

fn entries(v: &[(&str, bool)]) -> Vec<(String, bool)> {
    v.iter().map(|(n, d)| (n.to_string(), *d)).collect()
}

#[test]
fn prompt_includes_current_directory_name() {
    let prompt = format_prompt("ase", "my-project", "");
    assert!(prompt.contains("my-project"));
    assert_eq!(prompt, "\x1b[32mase\x1b[0m [my-project] \x1b[1m>\x1b[0m ");
}

#[test]
fn prompt_includes_git_branch_when_in_repo() {
    let branch = branch_from_head("ref: refs/heads/feature/test\n").unwrap();
    let prompt = format_prompt("ase", "repo", &branch);
    assert!(prompt.contains("(test)"));
}

#[test]
fn detached_head_shows_short_id() {
    assert_eq!(branch_from_head("0123456789abcdef\n"), Some("0123456".to_string()));
    assert_eq!(branch_from_head("abc"), Some("abc".to_string()));
    assert_eq!(branch_from_head("  \n"), None);
    assert_eq!(branch_from_head("ref: refs/heads/.."), None);
}

#[test]
fn file_names_of_paths() {
    assert_eq!(file_name_of("a/b/c.txt").as_deref(), Some("c.txt"));
    assert_eq!(file_name_of("a/b/").as_deref(), Some("b"));
    assert_eq!(file_name_of("a/./").as_deref(), Some("a"));
    assert_eq!(file_name_of("/"), None);
    assert_eq!(file_name_of("a/.."), None);
    assert_eq!(file_name_of("."), None);
    assert_eq!(file_name_of(""), None);
}

#[test]
fn ls_options_and_paths() {
    let o = parse_ls_args(&strings(&["-la", "dir", "--color", "-x"]));
    assert!(o.show_all);
    assert!(o.long_format);
    assert_eq!(o.paths, strings(&["dir", "--color"]));
    let o = parse_ls_args(&Vec::new());
    assert!(!o.show_all);
    assert_eq!(o.paths, strings(&["."]));
}

#[test]
fn ls_listing_sorts_case_insensitively_and_hides_dotfiles() {
    let dir = entries(&[("b.txt", false), ("Zeta", false), (".hidden", false), ("A", true), ("a", false)]);
    let shown = listing_entries(&dir, false);
    assert_eq!(shown, entries(&[("A", true), ("a", false), ("b.txt", false), ("Zeta", false)]));
    let all = listing_entries(&dir, true);
    assert_eq!(
        all,
        entries(&[
            (".", true),
            ("..", true),
            (".hidden", false),
            ("A", true),
            ("a", false),
            ("b.txt", false),
            ("Zeta", false)
        ])
    );
}

#[test]
fn ls_colors_and_lines() {
    assert_eq!(display_name("d", true), "d/");
    assert_eq!(colorize_ls_entry("d/", true, false), "\x1b[38;5;208md/\x1b[0m");
    assert_eq!(colorize_ls_entry(".d/", true, true), "\x1b[38;5;245m.d/\x1b[0m");
    assert_eq!(colorize_ls_entry("f", false, false), "f");
    assert_eq!(long_listing(&entries(&[("f", false), ("d", true)])), "f\n\x1b[38;5;208md/\x1b[0m\n");
    assert_eq!(missing_path_message("x"), "ls: cannot access 'x': No such file or directory\n");
    assert_eq!(listing_header(0, "a", true), "a:\n");
    assert_eq!(listing_header(1, "b", true), "\nb:\n");
    assert_eq!(listing_header(1, "b", false), "");
    assert_eq!(file_line("dir/file.txt"), "file.txt\n");
}

#[test]
fn columns_fill_top_to_bottom() {
    let es = entries(&[("a", false), ("b", false), ("c", false)]);
    assert_eq!(print_columns(&es, 80), "a              b              c\n");
    assert_eq!(print_columns(&es, 20), "a              c\nb\n");
    assert_eq!(print_columns(&es, 1), "a\nb\nc\n");
    assert_eq!(print_columns(&Vec::new(), 80), "");
}

#[test]
fn completion_plans() {
    match plan_completion("ec", 2) {
        CompletionPlan::Commands { start, prefix } => {
            assert_eq!(start, 0);
            assert_eq!(prefix, "ec");
        },
        _ => panic!("commands expected"),
    }
    assert!(matches!(plan_completion("cd sr", 5), CompletionPlan::Files));
    match plan_completion("git ch", 6) {
        CompletionPlan::Candidates { start, names } => {
            assert_eq!(start, 4);
            assert_eq!(names, strings(&["checkout", "cherry-pick"]));
        },
        _ => panic!("git subcommands expected"),
    }
    match plan_completion("git checkout ma", 15) {
        CompletionPlan::Branches { start, prefix } => {
            assert_eq!(start, 13);
            assert_eq!(prefix, "ma");
        },
        _ => panic!("branches expected"),
    }
    assert!(matches!(plan_completion("git add sr", 10), CompletionPlan::Files));
    assert!(matches!(plan_completion("vim x", 5), CompletionPlan::Nothing));
}

#[test]
fn branch_names_from_git_output() {
    let out = "main\n  feature/x\nmaster\n";
    assert_eq!(branches_from_output(out, "ma"), strings(&["main", "master"]));
    assert_eq!(branches_from_output("", ""), Vec::<String>::new());
}

#[test]
fn highlighting_colors_the_command_word() {
    assert_eq!(highlight_with("  ls -l", true), "  \x1b[38;5;208mls\x1b[0m -l");
    assert_eq!(highlight_with("foo", false), "\x1b[38;5;196mfoo\x1b[0m");
    assert_eq!(highlight_with("   ", true), "   ");
    assert_eq!(highlight("cd /tmp"), "\x1b[38;5;208mcd\x1b[0m /tmp");
    assert_eq!(highlight("no-such-cmd-q x"), "\x1b[38;5;196mno-such-cmd-q\x1b[0m x");
}

#[test]
fn git_dir_is_looked_for_upwards() {
    assert_eq!(git_dir_candidates("/home/ade/src"), strings(&["/home/ade/src/.git", "/home/ade/.git", "/home/.git", "/.git"]));
    assert_eq!(git_dir_candidates("/"), strings(&["/.git"]));
    assert_eq!(git_dir_candidates("work/"), strings(&["work/.git", ".git"]));
    assert_eq!(first_git_dir(&vec![false, true, true]), Some(1));
    assert_eq!(first_git_dir(&vec![false, false]), None);
    assert_eq!(first_git_dir(&Vec::new()), None);
}

#[test]
fn open_quotes_ask_for_more_input() {
    assert!(needs_more_input("echo \"it's"));
    assert!(!needs_more_input("echo 'a\"b'"));
    assert!(needs_more_input("echo 'a\"b"));
    assert!(!needs_more_input("   "));
}
