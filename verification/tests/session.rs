use ere::error::editor_outcome;
use ere::{
    keep_entry, listing, parse_file_names, unescape_all, Args, Error, EscapeNewlines, Executor,
    NewlineEscaped, Step,
};

/// A directory in memory: the names of its entries and what they hold.
struct TestDir {
    root: String,
    entries: Vec<(String, String)>,
}

impl TestDir {
    fn new() -> TestDir {
        TestDir { root: "dir".to_string(), entries: Vec::new() }
    }

    fn write(&mut self, name: &str, content: &str) {
        self.entries.push((name.to_string(), content.to_string()));
    }

    fn touch(&mut self, name: &str) {
        self.write(name, "");
    }

    fn paths(&self) -> Vec<String> {
        let mut paths: Vec<String> = self.entries.iter().map(|entry| entry.0.clone()).collect();
        paths.sort();
        paths
    }

    fn read_to_string(&self, name: &str) -> String {
        let found: Vec<&(String, String)> =
            self.entries.iter().filter(|entry| entry.0 == name).collect();
        assert_eq!(found.len(), 1);
        found[0].1.clone()
    }

    fn read_file_names(&self, include_hidden: bool) -> Vec<String> {
        self.entries
            .iter()
            .map(|entry| entry.0.clone())
            .filter(|name| {
                let path = format!("{}/{}", self.root, name);
                keep_entry(false, include_hidden, &path)
            })
            .collect()
    }

    fn rename(&mut self, from: &str, to: &str) -> std::io::Result<()> {
        let at = match self.entries.iter().position(|entry| entry.0 == from) {
            Some(at) => at,
            None => return Err(std::io::Error::from(std::io::ErrorKind::NotFound)),
        };
        let content = self.entries.remove(at).1;
        self.entries.retain(|entry| entry.0 != to);
        self.entries.push((to.to_string(), content));
        Ok(())
    }
}

/// One run on `dir`, with `edit` in the place of the editor.
fn ere(
    args: Args,
    dir: &mut TestDir,
    edit: impl FnOnce(Vec<NewlineEscaped>) -> Vec<NewlineEscaped>,
) -> Result<(), Error> {
    assert_eq!(args.path, dir.root);
    let file_names = dir.read_file_names(args.all);
    let written = listing(&file_names);

    let mut edited = String::new();
    for new_file_name in edit(parse_file_names(&written)) {
        edited.push_str(&new_file_name.to_string());
        edited.push('\n');
    }
    editor_outcome(Some(0))?;

    let new_file_names = unescape_all(parse_file_names(&edited));
    let mut executor = Executor::new(file_names, new_file_names)?;
    let mut rng = fastrand::Rng::with_seed(0);
    loop {
        match executor.step(&mut rng) {
            Step::Done => break,
            Step::Unchanged | Step::NoTemporaryName => {}
            Step::Attempt(attempt) => {
                let outcome = dir.rename(&attempt.from, &attempt.to);
                executor.settle(attempt, outcome);
            }
        }
    }
    executor.finish()
}

fn args_for(dir: &TestDir) -> Args {
    Args { path: dir.root.clone(), ..Args::default() }
}

#[test]
fn renames_a_file() {
    let mut test_dir = TestDir::new();
    test_dir.touch("a");

    ere(args_for(&test_dir), &mut test_dir, |_names| vec!["b".escape_newlines()]).unwrap();

    assert_eq!(test_dir.paths(), vec!["b".to_string()]);
}

#[test]
fn renames_a_file_with_a_newline_in_filename() {
    let mut test_dir = TestDir::new();
    test_dir.touch("a\nb");

    let mut provided_file_names = Vec::new();

    ere(args_for(&test_dir), &mut test_dir, |names| {
        provided_file_names = names;
        vec!["a\nc".escape_newlines()]
    })
    .unwrap();

    assert_eq!(test_dir.paths(), vec!["a\nc".to_string()]);

    assert_eq!(provided_file_names, vec!["a\nb".escape_newlines()]);
}

#[test]
fn renames_two_files_to_each_other() {
    let mut test_dir = TestDir::new();
    test_dir.write("a", "a");
    test_dir.write("b", "b");

    ere(args_for(&test_dir), &mut test_dir, |file_names| {
        let mut new_file_names = file_names;
        new_file_names.reverse();
        new_file_names
    })
    .unwrap();

    assert_eq!(test_dir.paths(), vec!["a".to_string(), "b".to_string()]);

    assert_eq!(test_dir.read_to_string("a"), "b");
    assert_eq!(test_dir.read_to_string("b"), "a");
}

#[test]
fn excludes_hidden_files_by_default() {
    let mut test_dir = TestDir::new();
    test_dir.touch(".a");
    test_dir.touch("b");

    let mut provided_file_names = Vec::new();

    ere(args_for(&test_dir), &mut test_dir, |names| {
        provided_file_names = names.clone();
        names
    })
    .unwrap();

    assert_eq!(test_dir.paths(), vec![".a".to_string(), "b".to_string()]);

    assert_eq!(provided_file_names, vec!["b".escape_newlines()]);
}

#[test]
fn lists_hidden_files_when_asked_for_all() {
    let mut test_dir = TestDir::new();
    test_dir.touch(".a");
    test_dir.touch("b");

    let mut provided_file_names = Vec::new();
    let args = Args { all: true, ..args_for(&test_dir) };

    ere(args, &mut test_dir, |names| {
        provided_file_names = names.clone();
        vec![".c".escape_newlines(), "b".escape_newlines()]
    })
    .unwrap();

    assert_eq!(test_dir.paths(), vec![".c".to_string(), "b".to_string()]);
    assert_eq!(
        provided_file_names,
        vec![".a".escape_newlines(), "b".escape_newlines()]
    );
}

#[test]
fn a_deleted_line_is_a_count_mismatch_and_nothing_is_renamed() {
    let mut test_dir = TestDir::new();
    test_dir.write("a", "a");
    test_dir.write("b", "b");

    let ended = ere(args_for(&test_dir), &mut test_dir, |_names| vec!["c".escape_newlines()]);

    assert!(matches!(ended, Err(Error::CountMismatch)));
    assert_eq!(test_dir.paths(), vec!["a".to_string(), "b".to_string()]);
    assert_eq!(test_dir.read_to_string("a"), "a");
    assert_eq!(test_dir.read_to_string("b"), "b");
}

#[test]
fn an_editor_that_fails_ends_the_run() {
    assert!(editor_outcome(Some(0)).is_ok());
    assert!(matches!(editor_outcome(Some(1)), Err(Error::EditorStatus(Some(1)))));
    assert!(matches!(editor_outcome(Some(-1)), Err(Error::EditorStatus(Some(-1)))));
    assert!(matches!(editor_outcome(None), Err(Error::EditorStatus(None))));
}
