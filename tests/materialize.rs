use ai_project_template::materialize::{create_project, MaterializeError, Materializer, Reply, Request};
use ai_project_template::preset::{PresetConfig, TemplateConfig};
use std::collections::{BTreeMap, BTreeSet};

#[derive(Default, Clone, PartialEq, Debug)]
struct MemFs {
    dirs: BTreeSet<String>,
    files: BTreeMap<String, Vec<u8>>,
}

impl MemFs {
    fn has_path(&self, p: &str) -> bool {
        self.dirs.contains(p) || self.files.contains_key(p)
    }

    fn holds_entries(&self, dir: &str) -> bool {
        let prefix = format!("{}/", dir);
        self.dirs.iter().any(|d| d.starts_with(&prefix)) || self.files.keys().any(|f| f.starts_with(&prefix))
    }
}

struct Trace {
    requests: Vec<String>,
}

fn drive(fs: &mut MemFs, mut m: Materializer, trace: &mut Trace) -> Result<Vec<String>, MaterializeError> {
    let mut reply = Reply::Start;
    loop {
        let req = m.next(reply);
        trace.requests.push(format!("{:?}", req));
        reply = match req {
            Request::InspectTarget(p) => Reply::Present(fs.holds_entries(&p)),
            Request::CreateDir(p) => {
                fs.dirs.insert(p);
                Reply::Done
            }
            Request::Exists(p) => Reply::Present(fs.has_path(&p)),
            Request::Copy { source, destination } => match fs.files.get(&source).cloned() {
                Some(bytes) => {
                    fs.files.insert(destination, bytes);
                    Reply::Done
                }
                None => Reply::Failed(format!("cannot read {}", source)),
            },
            Request::CreateEmpty(p) => {
                fs.files.insert(p, Vec::new());
                Reply::Done
            }
            Request::WriteFile { path, content } => {
                fs.files.insert(path, content.into_bytes());
                Reply::Done
            }
            Request::Finish(log) => return Ok(log),
            Request::Abort(e) => return Err(e),
        };
    }
}

fn software_preset() -> PresetConfig {
    PresetConfig {
        id: "software".to_string(),
        name: "Software project".to_string(),
        description: "A code base".to_string(),
        directories: vec!["src".to_string(), "docs".to_string(), "src".to_string()],
        templates: vec![
            TemplateConfig { source: "prompt.md".to_string(), destination: "docs/prompt.md".to_string() },
            TemplateConfig { source: "missing.md".to_string(), destination: "docs/missing.md".to_string() },
        ],
        empty_files: vec!["notes/todo.txt".to_string()],
        readme_template: "Project {PROJECT_NAME} by {AUTHOR}".to_string(),
        fields: vec![],
        options: vec![],
    }
}

fn preset_fs() -> MemFs {
    let mut fs = MemFs::default();
    fs.dirs.insert("/presets/software".to_string());
    fs.files.insert("/presets/software/prompt.md".to_string(), b"prompt body\n".to_vec());
    fs.files.insert("/presets/software/files_config.json".to_string(), b"{}".to_vec());
    fs
}

fn start(force: bool, refresh: bool) -> Materializer {
    create_project(
        "/work/demo",
        "/presets",
        software_preset(),
        "demo",
        vec![("author".to_string(), "Ann".to_string())],
        force,
        refresh,
    )
}

fn is_minute_stamp(s: &str) -> bool {
    let b = s.as_bytes();
    b.len() == 16
        && b.iter().enumerate().all(|(i, c)| match i {
            4 | 7 => *c == b'-',
            10 => *c == b' ',
            13 => *c == b':',
            _ => c.is_ascii_digit(),
        })
}

#[test]
fn fresh_target_gets_exactly_the_declared_tree() {
    let mut fs = preset_fs();
    let before = fs.clone();
    let mut trace = Trace { requests: vec![] };
    let log = drive(&mut fs, start(false, false), &mut trace).unwrap();
    let new_dirs: Vec<&String> = fs.dirs.difference(&before.dirs).collect();
    assert_eq!(new_dirs, vec!["/work/demo", "/work/demo/docs", "/work/demo/src"]);
    let new_files: Vec<&String> = fs.files.keys().filter(|k| !before.files.contains_key(*k)).collect();
    assert_eq!(new_files, vec!["/work/demo/README.md", "/work/demo/docs/prompt.md", "/work/demo/notes/todo.txt"]);
    assert_eq!(fs.files["/work/demo/docs/prompt.md"], b"prompt body\n".to_vec());
    assert!(fs.files["/work/demo/notes/todo.txt"].is_empty());
    assert_eq!(
        log,
        vec![
            r#"Creating project directory: "/work/demo""#,
            r#"Creating subdirectory: "/work/demo/src""#,
            r#"Creating subdirectory: "/work/demo/docs""#,
            r#"Creating subdirectory: "/work/demo/src""#,
            r#"Copying template: "/presets/software/prompt.md" -> "/work/demo/docs/prompt.md""#,
            r#"Warning: Template source not found: "/presets/software/missing.md""#,
            r#"Creating empty file: "/work/demo/notes/todo.txt""#,
            r#"Generating README: "/work/demo/README.md""#,
            "Project created successfully!",
        ]
    );
}

#[test]
fn second_run_with_force_changes_nothing_and_skips() {
    let mut fs = preset_fs();
    let mut trace = Trace { requests: vec![] };
    drive(&mut fs, start(false, false), &mut trace).unwrap();
    let after_first = fs.clone();
    let log = drive(&mut fs, start(true, false), &mut trace).unwrap();
    assert_eq!(fs, after_first);
    assert!(log.contains(&r#"Skipping existing file: "/work/demo/docs/prompt.md""#.to_string()));
    assert!(log.contains(&r#"Skipping existing empty file: "/work/demo/notes/todo.txt""#.to_string()));
    assert!(log.contains(&r#"Warning: Template source not found: "/presets/software/missing.md""#.to_string()));
    assert!(!log.iter().any(|l| l.starts_with("Generating README")));
    assert!(!log.iter().any(|l| l.starts_with("Copying") || l.starts_with("Creating empty")));
}

#[test]
fn second_run_without_force_is_refused_and_changes_nothing() {
    let mut fs = preset_fs();
    let mut trace = Trace { requests: vec![] };
    drive(&mut fs, start(false, false), &mut trace).unwrap();
    let after_first = fs.clone();
    let r = drive(&mut fs, start(false, false), &mut trace);
    assert!(matches!(r, Err(MaterializeError::TargetNotEmpty(ref p)) if p == "/work/demo"));
    assert_eq!(fs, after_first);
}

#[test]
fn refresh_restores_an_edited_template_copy() {
    let mut fs = preset_fs();
    let mut trace = Trace { requests: vec![] };
    drive(&mut fs, start(false, false), &mut trace).unwrap();
    fs.files.insert("/work/demo/docs/prompt.md".to_string(), b"edited by hand".to_vec());
    fs.files.insert("/work/demo/notes/todo.txt".to_string(), b"my notes".to_vec());
    let log = drive(&mut fs, start(true, true), &mut trace).unwrap();
    assert_eq!(fs.files["/work/demo/docs/prompt.md"], b"prompt body\n".to_vec());
    assert!(fs.files["/work/demo/notes/todo.txt"].is_empty());
    assert!(log.iter().any(|l| l.starts_with("Generating README")));
}

#[test]
fn non_empty_target_without_force_writes_nothing() {
    let mut fs = preset_fs();
    fs.dirs.insert("/work/demo".to_string());
    fs.files.insert("/work/demo/keep.txt".to_string(), b"mine".to_vec());
    let before = fs.clone();
    let mut trace = Trace { requests: vec![] };
    let r = drive(&mut fs, start(false, false), &mut trace);
    assert!(matches!(r, Err(MaterializeError::TargetNotEmpty(ref p)) if p == "/work/demo"));
    assert_eq!(fs, before);
    assert_eq!(trace.requests.len(), 2);
    assert!(trace.requests[0].starts_with("InspectTarget"));
    assert!(trace.requests[1].starts_with("Abort"));
}

#[test]
fn existing_empty_target_is_accepted() {
    let mut fs = preset_fs();
    fs.dirs.insert("/work/demo".to_string());
    let mut trace = Trace { requests: vec![] };
    let log = drive(&mut fs, start(false, false), &mut trace).unwrap();
    assert_eq!(log.last().unwrap(), "Project created successfully!");
}

#[test]
fn readme_placeholders_are_filled_in() {
    let mut preset = software_preset();
    preset.readme_template = "{PROJECT_NAME} / {project_name} / {DATE} / {MYFIELD}".to_string();
    let m = create_project(
        "/work/demo",
        "/presets",
        preset,
        "demo",
        vec![("myfield".to_string(), "X".to_string())],
        false,
        false,
    );
    let mut fs = preset_fs();
    let mut trace = Trace { requests: vec![] };
    drive(&mut fs, m, &mut trace).unwrap();
    let readme = String::from_utf8(fs.files["/work/demo/README.md"].clone()).unwrap();
    let lines: Vec<&str> = readme.lines().collect();
    assert_eq!(lines[0], "# demo");
    let stamp = lines[2].strip_prefix("Создано: ").unwrap();
    assert!(is_minute_stamp(stamp));
    assert_eq!(lines[4], "## Что дальше");
    assert_eq!(lines[5], format!("demo / demo / {} / X", stamp));
}

#[test]
fn failed_copy_aborts_the_run() {
    let mut fs = preset_fs();
    let mut m = start(false, false);
    let mut reply = Reply::Start;
    let mut saw_copy = false;
    loop {
        match m.next(reply) {
            Request::InspectTarget(_) => reply = Reply::Present(false),
            Request::Exists(p) => reply = Reply::Present(fs.has_path(&p)),
            Request::Copy { .. } => {
                saw_copy = true;
                reply = Reply::Failed("disk full".to_string());
            }
            Request::Abort(e) => {
                assert!(matches!(e, MaterializeError::Io(ref s) if s == "disk full"));
                break;
            }
            Request::Finish(_) => panic!("run should have stopped"),
            _ => reply = Reply::Done,
        }
    }
    assert!(saw_copy);
}

#[test]
fn a_reply_of_the_wrong_kind_stops_the_run() {
    let mut m = start(false, false);
    assert!(matches!(m.next(Reply::Start), Request::InspectTarget(ref p) if p == "/work/demo"));
    assert!(matches!(m.next(Reply::Done), Request::Abort(MaterializeError::UnexpectedReply)));
    assert!(matches!(m.next(Reply::Done), Request::Abort(MaterializeError::UnexpectedReply)));
}

#[test]
fn paths_in_the_log_are_escaped_as_debug_text() {
    let m = create_project("/work/a \"b\"", "/presets", software_preset(), "demo", vec![], false, false);
    let mut fs = preset_fs();
    let mut trace = Trace { requests: vec![] };
    let log = drive(&mut fs, m, &mut trace).unwrap();
    assert_eq!(log[0], r#"Creating project directory: "/work/a \"b\"""#);
}
