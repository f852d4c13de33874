use blink::folder::{
    filter, is_markdown, order, scan, Entry, Found, Kind, Listing, MAX_FILES,
};
use std::cmp::Ordering;
use std::path::PathBuf;

/// A disk in memory: the paths of its files and of links to them, which read alike, and of links
/// to folders and broken links, with a `>` before them.
struct Disk {
    files: Vec<String>,
}

impl Disk {
    fn new(files: &[&str]) -> Self {
        Self {
            files: files.iter().map(|file| file.to_string()).collect(),
        }
    }

    fn read(&self, folder: &PathBuf) -> Option<Vec<Found>> {
        let mut found: Vec<Found> = Vec::new();
        for file in &self.files {
            let mut path = file.clone();
            let mut kind = Kind::File;
            if let Some(folder_link) = file.strip_prefix('>') {
                path = folder_link.to_string();
                kind = Kind::Other;
            }
            let path = PathBuf::from("/root").join(path);
            let Ok(relative) = path.strip_prefix(folder) else {
                continue;
            };
            let mut parts = relative.components();
            let first = parts.next()?;
            let name = first.as_os_str().to_str()?.to_string();
            if parts.next().is_some() {
                kind = Kind::Folder;
            }
            if found.iter().any(|found| found.name == name) {
                continue;
            }
            let path = folder.join(&name);
            found.push(Found { name, path, kind });
        }
        if found.is_empty() {
            None
        } else {
            Some(found)
        }
    }

    fn scan(&self, max_files: usize) -> Listing {
        scan(|folder: &PathBuf| self.read(folder), &PathBuf::from("/root"), max_files)
    }
}

fn walk(entries: &[Entry], depth: usize, lines: &mut Vec<String>) {
    for entry in entries {
        let slash = if entry.children.is_some() { "/" } else { "" };
        lines.push(format!("{}{}{slash}", "  ".repeat(depth), entry.name));
        if let Some(children) = &entry.children {
            walk(children, depth + 1, lines);
        }
    }
}

/// The listing as indented names, to compare whole trees at once.
fn outline(entries: &[Entry]) -> Vec<String> {
    let mut lines = Vec::new();
    walk(entries, 0, &mut lines);
    lines
}

fn empty() -> Listing {
    Listing {
        entries: Vec::new(),
        truncated: false,
    }
}

#[test]
fn lists_markdown_below_the_root_folders_first() {
    let disk = Disk::new(&[
        "README.md",
        "CONTRIBUTING.md",
        "Cargo.toml",
        "docs/usage.md",
        "docs/Install.MARKDOWN",
        "docs/api/index.md",
        "src/main.rs",
    ]);
    let listing = disk.scan(MAX_FILES);
    assert!(!listing.truncated);
    assert_eq!(
        outline(&listing.entries),
        [
            "docs/",
            "  api/",
            "    index.md",
            "  Install.MARKDOWN",
            "  usage.md",
            "CONTRIBUTING.md",
            "README.md",
        ]
    );
    assert_eq!(listing.entries[1].path, PathBuf::from("/root/CONTRIBUTING.md"));
}

#[test]
fn skips_hidden_and_tool_folders() {
    let disk = Disk::new(&[
        "notes.md",
        ".hidden.md",
        ".git/description.md",
        ".github/pull_request_template.md",
        "node_modules/left-pad/README.md",
        "target/doc/index.md",
    ]);
    assert_eq!(outline(&disk.scan(MAX_FILES).entries), ["notes.md"]);
}

#[test]
fn follows_links_to_files_but_not_to_folders() {
    let disk = Disk::new(&["real/page.md", "linked.md", ">real/loop", ">broken.md"]);
    assert_eq!(
        outline(&disk.scan(MAX_FILES).entries),
        ["real/", "  page.md", "linked.md"]
    );
}

#[test]
fn leaves_out_folders_without_markdown() {
    let disk = Disk::new(&["src/lib.rs", "empty/deeper/.keep"]);
    assert_eq!(disk.scan(MAX_FILES), empty());
}

#[test]
fn stops_at_the_limit_and_says_so() {
    let disk = Disk::new(&["a.md", "b.md", "c.md", "sub/d.md"]);
    let listing = disk.scan(3);
    assert!(listing.truncated);
    assert_eq!(
        outline(&listing.entries),
        ["sub/", "  d.md", "a.md", "b.md"]
    );

    let listing = disk.scan(4);
    assert!(!listing.truncated);
}

#[test]
fn filter_keeps_matches_and_the_folders_to_them() {
    let listing = Disk::new(&[
        "README.md",
        "docs/usage.md",
        "docs/install.md",
        "docs/api/Usage-notes.md",
        "guides/intro.md",
        "notes/todo.md",
    ])
    .scan(MAX_FILES);

    assert_eq!(
        outline(&filter(&listing.entries, "USAGE")),
        ["docs/", "  api/", "    Usage-notes.md", "  usage.md"]
    );
    // A folder that matches by name keeps its files, matching or not.
    assert_eq!(
        outline(&filter(&listing.entries, "guide")),
        ["guides/", "  intro.md"]
    );
    assert!(filter(&listing.entries, "missing").is_empty());
    assert_eq!(filter(&listing.entries, ""), listing.entries);
}

#[test]
fn missing_root_is_empty() {
    assert_eq!(Disk::new(&[]).scan(MAX_FILES), empty());
}

#[test]
fn markdown_is_told_by_the_extension() {
    assert!(is_markdown("a.md"));
    assert!(is_markdown("a.b.MarkDown"));
    assert!(!is_markdown(".md"));
    assert!(!is_markdown("md"));
    assert!(!is_markdown("a.md.txt"));
}

#[test]
fn names_are_ordered_regardless_of_case() {
    assert_eq!(order("b", true, "a", false), Ordering::Less);
    assert_eq!(order("B", false, "a", false), Ordering::Greater);
    assert_eq!(order("A", false, "a", false), Ordering::Less);
    assert_eq!(order("a", false, "a", false), Ordering::Equal);
    assert_eq!(order("Ä", true, "ä", true), Ordering::Less);
}

fn files(entries: &[Entry]) -> Vec<String> {
    let mut names = Vec::new();
    for entry in entries {
        match &entry.children {
            Some(children) => names.extend(files(children)),
            None => names.push(entry.name.clone()),
        }
    }
    names
}

#[test]
fn shorter_listings_start_longer_ones() {
    let disk = Disk::new(&["a.md", "b/c.md", "b/d/e.md", "b/f.md", "g/h.txt", "g/i.md"]);
    let all = disk.scan(MAX_FILES);
    let names = files(&all.entries);
    assert_eq!(names.len(), 5);
    for max in 0..7 {
        let listing = disk.scan(max);
        assert_eq!(files(&listing.entries), names[..max.min(5)]);
        assert_eq!(listing.truncated, max < 5);
    }
}

#[test]
fn filters_narrow_as_the_query_grows() {
    let disk = Disk::new(&["Notes.md", "note/a.md", "b/not.md", "c/NOTEBOOK.md"]);
    let entries = disk.scan(MAX_FILES).entries;
    let note = filter(&entries, "note");
    assert_eq!(filter(&note, "note"), note);
    assert_eq!(filter(&entries, "NoTe"), note);
    for name in files(&note) {
        assert!(files(&filter(&entries, "not")).contains(&name));
    }
    assert_eq!(files(&note).len(), 3);
}

#[test]
fn queries_find_the_same_in_lower_case() {
    let entries = Disk::new(&["Нотатки.md", "ΣΟΦΟΣ.md", "İ.md"]).scan(MAX_FILES).entries;
    for query in ["НОТАТ", "ΣΟΦ", "İ", "Md"] {
        let found = filter(&entries, query);
        assert!(!found.is_empty());
        assert_eq!(filter(&entries, &query.to_lowercase()), found);
    }
}
