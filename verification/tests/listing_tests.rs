use minishell::listing::{
    format_permissions, parse_flags, print_file_type, print_metadata, render_sorted, sort_entries,
    Entry, EntryMeta, Flags, MTime,
};

fn plain_file(size: u64, blocks: u64) -> EntryMeta {
    EntryMeta {
        is_dir: false,
        is_file: true,
        is_symlink: false,
        mode: 0o644,
        nlink: 1,
        size,
        blocks,
        modified: MTime::At(0),
        owner: "u".to_string(),
        group: "g".to_string(),
    }
}

fn directory(nlink: u64, blocks: u64) -> EntryMeta {
    EntryMeta {
        is_dir: true,
        is_file: false,
        is_symlink: false,
        mode: 0o755,
        nlink,
        size: 4096,
        blocks,
        modified: MTime::At(0),
        owner: "root".to_string(),
        group: "root".to_string(),
    }
}

#[test]
fn permission_bits_decode_exactly() {
    assert_eq!(format_permissions(false, true, 0o754), "-rwxr-xr--");
}

#[test]
fn permission_string_for_directories_and_others() {
    assert_eq!(format_permissions(true, false, 0o755), "drwxr-xr-x");
    assert_eq!(format_permissions(false, false, 0o000), "?---------");
    assert_eq!(format_permissions(false, true, 0o777), "-rwxrwxrwx");
}

#[test]
fn short_format_suppresses_hidden_entries() {
    let entries = vec![
        Entry { name: "b".to_string(), meta: None },
        Entry { name: ".c".to_string(), meta: None },
        Entry { name: "a".to_string(), meta: None },
    ];
    let sorted = sort_entries(entries);
    let flags = Flags { show_all: false, long_format: false, show_file_type: false };
    let out = render_sorted(flags, &None, &None, &sorted);
    assert_eq!(out, "a\u{1b}[0m  b\u{1b}[0m  \n");
    assert!(!out.contains(".c"));
}

#[test]
fn short_format_with_show_all_keeps_hidden_entries() {
    let entries = vec![
        Entry { name: ".c".to_string(), meta: None },
        Entry { name: "a".to_string(), meta: None },
    ];
    let sorted = sort_entries(entries);
    let flags = Flags { show_all: true, long_format: false, show_file_type: false };
    let out = render_sorted(flags, &None, &None, &sorted);
    assert_eq!(out, "\u{1b}[35m.  ..\u{1b}[0m  .c\u{1b}[0m  a\u{1b}[0m  \n");
}

#[test]
fn long_format_total_sums_pseudo_entry_blocks() {
    // An empty directory listed with show-all and long format: the total is
    // the sum of the two pseudo-entries' halved block counts.
    let flags = Flags { show_all: true, long_format: true, show_file_type: false };
    let dot = Some(directory(2, 8));
    let dotdot = Some(directory(4, 16));
    let out = render_sorted(flags, &dot, &dotdot, &Vec::new());
    let dot_line = ["drwxr-xr-x", "2", "root root", " 4096", "Jan  1 00:00"].join(" ") + " ";
    let dotdot_line = ["drwxr-xr-x", "4", "root root", " 4096", "Jan  1 00:00"].join(" ") + " ";
    let expected = format!(
        "total 12\n{}\u{1b}[35m.\u{1b}[0m\n{}\u{1b}[35m..\u{1b}[0m\n",
        dot_line, dotdot_line
    );
    assert_eq!(out, expected);
}

#[test]
fn long_format_total_counts_listed_entries() {
    let flags = Flags { show_all: false, long_format: true, show_file_type: false };
    let entries = vec![
        Entry { name: "f.txt".to_string(), meta: Some(plain_file(10, 8)) },
        Entry { name: "g.txt".to_string(), meta: Some(plain_file(3, 2)) },
    ];
    let sorted = sort_entries(entries);
    let out = render_sorted(flags, &None, &None, &sorted);
    let f_line = ["-rw-r--r--", "1", "u g     ", "   10", "Jan  1 00:00"].join(" ") + " ";
    let g_line = ["-rw-r--r--", "1", "u g     ", "    3", "Jan  1 00:00"].join(" ") + " ";
    let expected = format!(
        "total 5\n{}\u{1b}[0mf.txt\u{1b}[0m\n{}\u{1b}[0mg.txt\u{1b}[0m\n",
        f_line, g_line
    );
    assert_eq!(out, expected);
}

#[test]
fn entries_sort_by_name() {
    let entries = vec![
        Entry { name: "pear".to_string(), meta: None },
        Entry { name: "apple".to_string(), meta: None },
        Entry { name: "fig".to_string(), meta: None },
    ];
    let sorted = sort_entries(entries);
    let names: Vec<&str> = sorted.iter().map(|e| e.name.as_str()).collect();
    assert_eq!(names, vec!["apple", "fig", "pear"]);
}

#[test]
fn entries_with_equal_names_all_survive_sorting() {
    let entries = vec![
        Entry { name: "same".to_string(), meta: None },
        Entry { name: "a".to_string(), meta: Some(plain_file(1, 2)) },
        Entry { name: "same".to_string(), meta: Some(plain_file(9, 4)) },
    ];
    let sorted = sort_entries(entries);
    let names: Vec<&str> = sorted.iter().map(|e| e.name.as_str()).collect();
    assert_eq!(names, vec!["a", "same", "same"]);
}

#[test]
fn suppressed_hidden_entries_do_not_count_toward_total() {
    let flags = Flags { show_all: false, long_format: true, show_file_type: false };
    let entries = vec![
        Entry { name: ".h".to_string(), meta: Some(plain_file(5, 100)) },
        Entry { name: "f.txt".to_string(), meta: Some(plain_file(10, 8)) },
    ];
    let sorted = sort_entries(entries);
    let out = render_sorted(flags, &None, &None, &sorted);
    assert!(out.starts_with("total 4\n"));
    assert!(!out.contains(".h"));
}

#[test]
fn flag_parsing_accepts_the_three_options() {
    let args = vec!["-a".to_string(), "-l".to_string()];
    assert_eq!(
        parse_flags(&args),
        Ok(Flags { show_all: true, long_format: true, show_file_type: false })
    );
    let args = vec!["-F".to_string()];
    assert_eq!(
        parse_flags(&args),
        Ok(Flags { show_all: false, long_format: false, show_file_type: true })
    );
}

#[test]
fn invalid_flag_aborts_with_its_name() {
    let args = vec!["-a".to_string(), "-x".to_string()];
    assert_eq!(parse_flags(&args), Err("ls: invalid option -- '-x'".to_string()));
}

#[test]
fn type_suffixes_mark_each_class() {
    let dir = directory(2, 8);
    assert_eq!(print_file_type(&dir, "d"), "\u{1b}[35md/\u{1b}[0m");
    let mut exe = plain_file(1, 2);
    exe.mode = 0o755;
    assert_eq!(print_file_type(&exe, "x"), "\u{1b}[33mx*\u{1b}[0m");
    let link = EntryMeta {
        is_dir: false,
        is_file: false,
        is_symlink: true,
        mode: 0,
        nlink: 1,
        size: 0,
        blocks: 0,
        modified: MTime::At(0),
        owner: "u".to_string(),
        group: "g".to_string(),
    };
    assert_eq!(print_file_type(&link, "l"), "\u{1b}[36ml@\u{1b}[0m");
    let plain = plain_file(1, 2);
    assert_eq!(print_file_type(&plain, "p"), "p");
}

#[test]
fn metadata_prefix_lays_out_fixed_fields() {
    let m = plain_file(10, 8);
    assert_eq!(print_metadata(&m), "-rw-r--r-- 1 u g         10 Jan  1 00:00 ");
}

#[test]
fn unavailable_times_degrade_to_sentinels() {
    let mut m = plain_file(10, 8);
    m.modified = MTime::Unavailable;
    assert!(print_metadata(&m).contains(" unknown "));
    m.modified = MTime::Invalid;
    assert!(print_metadata(&m).contains(" date invalide "));
}

#[test]
fn suffix_mode_without_metadata_falls_back_to_bare_name() {
    let flags = Flags { show_all: false, long_format: false, show_file_type: true };
    let entries = vec![Entry { name: "a".to_string(), meta: None }];
    let out = render_sorted(flags, &None, &None, &entries);
    assert_eq!(out, "a\u{1b}[0m  \n");
}
