use daemon_framework::file::{
    choose_parent, parent_directory, read_bytes_bounded, sync_parent, temporary_suffix,
    write_bytes_atomic, AtomicFilePolicy, CommitStep, FileError, FileEvent, Inspection,
    ParentChoice, ReadError, ReadEvent, ReadStep, StageStep, StagedFile, WriteStep,
};
use daemon_framework::json::{Json, JsonNumber};
use daemon_framework::protocol_js::{quote, render, NameList, RegistryError};
use daemon_framework::sorted_map::SortedMap;
use serde_json::Value;

fn to_json(value: &Value) -> Json {
    match value {
        Value::Null => Json::Null,
        Value::Bool(b) => Json::Bool(*b),
        Value::Number(n) => Json::Number(match (n.as_u64(), n.as_i64()) {
            (Some(n), _) => JsonNumber::Unsigned(n),
            (None, Some(n)) => JsonNumber::Negative(n),
            (None, None) => JsonNumber::FloatBits(n.as_f64().unwrap().to_bits()),
        }),
        Value::String(text) => Json::from_text(text),
        Value::Array(items) => Json::from_items(items.iter().map(to_json).collect()),
        Value::Object(members) => {
            let mut map = SortedMap::new();
            for (key, value) in members {
                map.insert(key.clone(), to_json(value));
            }
            Json::from_members(map)
        }
    }
}

fn to_value(json: &Json) -> Value {
    match json {
        Json::Null => Value::Null,
        Json::Bool(b) => Value::from(*b),
        Json::Number(JsonNumber::Unsigned(n)) => Value::from(*n),
        Json::Number(JsonNumber::Negative(n)) => Value::from(*n),
        Json::Number(JsonNumber::FloatBits(bits)) => Value::from(f64::from_bits(*bits)),
        Json::Text(text) => Value::from(text.as_str()),
        Json::Array(items) => Value::from(items.iter().map(to_value).collect::<Vec<_>>()),
        Json::Object(members) => {
            let mut map = serde_json::Map::new();
            for i in 0..members.len() {
                map.insert(members.key_at(i).clone(), to_value(members.value_at(i)));
            }
            Value::Object(map)
        }
    }
}

fn value(text: &str) -> Value {
    serde_json::from_str(text).unwrap()
}

fn json(text: &str) -> Json {
    to_json(&value(text))
}

#[test]
fn renders_direct_and_enveloped_registries() {
    let direct = json(
        r#"{"protocol": "test-api", "version": 2, "registry": {
            "methods": [{"name": "thing.read"}], "streams": [{"name": "thing.changed"}]}}"#,
    );
    let output = render(&direct).unwrap();
    assert!(output.contains("var protocol = \"test-api\";"));
    assert!(output.contains("\"thing.read\": \"thing.read\""));
    assert_eq!(
        output,
        ".pragma library\n\n\
         // Generated from the daemon-owned protocol registry. Do not edit.\n\
         var protocol = \"test-api\";\n\
         var version = 2;\n\
         var methods = ({\n    \"thing.read\": \"thing.read\",\n});\n\
         var streams = ({\n    \"thing.changed\": \"thing.changed\",\n});\n"
    );

    let enveloped = json(
        r#"{"protocol": "test-api", "version": 2, "data": {"protocol": {
            "methods": [{"name": "thing.read"}], "streams": [{"name": "thing.changed"}]}}}"#,
    );
    assert_eq!(render(&enveloped).unwrap(), output);
    assert_eq!(to_value(&direct)["version"], 2);
}

#[test]
fn registries_name_what_they_lack() {
    for (source, error, message) in [
        ("{}", RegistryError::Protocol, "protocol registry is missing protocol"),
        (
            r#"{"protocol": "p", "version": -1}"#,
            RegistryError::Version,
            "protocol registry is missing version",
        ),
        (
            r#"{"protocol": "p", "version": 1, "data": {}}"#,
            RegistryError::Registry,
            "protocol registry is missing registry data",
        ),
        (
            r#"{"protocol": "p", "version": 1, "registry": {"methods": {}}}"#,
            RegistryError::List(NameList::Methods),
            "protocol registry is missing methods",
        ),
        (
            r#"{"protocol": "p", "version": 1, "registry": {"methods": []}}"#,
            RegistryError::List(NameList::Streams),
            "protocol registry is missing streams",
        ),
        (
            r#"{"protocol": "p", "version": 1,
                "registry": {"methods": [], "streams": [{"name": "a"}, {"name": 1}]}}"#,
            RegistryError::Name(NameList::Streams),
            "protocol streams entry is missing name",
        ),
    ] {
        assert_eq!(render(&json(source)), Err(error));
        assert_eq!(error.message(), message);
    }
}

#[test]
fn quotes_escape_control_characters() {
    assert_eq!(quote("a\"b\\c"), r#""a\"b\\c""#);
    assert_eq!(quote("\n\r\t\u{8}\u{c}"), r#""\n\r\t\b\f""#);
    assert_eq!(quote("\u{1}\u{1f}\u{7f}é/"), "\"\\u0001\\u001f\u{7f}é/\"");
    assert_eq!(quote(""), "\"\"");
}

#[test]
fn paths_have_parent_directories() {
    assert_eq!(parent_directory("relative.json").unwrap(), ".");
    assert_eq!(parent_directory("/state/data").unwrap(), "/state");
    assert_eq!(parent_directory("new/state/data").unwrap(), "new/state");
    assert_eq!(parent_directory("/"), Err(FileError::InvalidInput));
    assert_eq!(parent_directory(""), Err(FileError::InvalidInput));
    assert_eq!(sync_parent("/data").unwrap(), "/");
    assert_eq!(choose_parent(None), Err(FileError::InvalidInput));
    assert_eq!(choose_parent(Some(true)), Ok(ParentChoice::Current));
    assert_eq!(temporary_suffix(42, 7), ".42-7.tmp");
}

fn steps(policy: AtomicFilePolicy, events: &[FileEvent]) -> (Vec<WriteStep>, bool) {
    let mut file = StagedFile::new(true, true, policy).unwrap();
    let mut step = WriteStep::Stage(StageStep::FindMissing);
    let mut passed = Vec::new();
    for event in events {
        step = write_bytes_atomic(&mut file, step, *event);
        passed.push(step);
    }
    (passed, file.leaves_temporary())
}

const FINE: FileEvent = FileEvent::Inspected(Inspection::Other);
const DONE: FileEvent = FileEvent::Done;

#[test]
fn private_files_are_written_step_by_step() {
    let (passed, temporary) = steps(
        AtomicFilePolicy::private(),
        &[
            FileEvent::Missing(2), FINE, DONE, DONE, DONE, DONE, DONE, DONE, FINE,
            FileEvent::NameTaken, DONE, DONE, DONE, DONE, FINE, DONE, DONE,
        ],
    );
    assert_eq!(
        passed,
        vec![
            WriteStep::Stage(StageStep::InspectDirectory(2)),
            WriteStep::Stage(StageStep::CreateDirectory(2)),
            WriteStep::Stage(StageStep::SetDirectoryMode(0o700, 2)),
            WriteStep::Stage(StageStep::SyncAncestor(2)),
            WriteStep::Stage(StageStep::SyncAncestorParent(2)),
            WriteStep::Stage(StageStep::SyncAncestor(1)),
            WriteStep::Stage(StageStep::SyncAncestorParent(1)),
            WriteStep::Stage(StageStep::InspectDestination),
            WriteStep::Stage(StageStep::CreateTemporary),
            WriteStep::Stage(StageStep::CreateTemporary),
            WriteStep::Stage(StageStep::WriteContents),
            WriteStep::Stage(StageStep::SetFileMode(0o600)),
            WriteStep::Stage(StageStep::SyncFile),
            WriteStep::Commit(CommitStep::InspectDestination),
            WriteStep::Commit(CommitStep::Rename),
            WriteStep::Commit(CommitStep::SyncParent),
            WriteStep::Commit(CommitStep::Committed),
        ]
    );
    assert!(!temporary);
}

#[test]
fn failures_leave_their_temporary_file_to_be_removed() {
    let policy = AtomicFilePolicy::durable();
    let (passed, temporary) =
        steps(policy, &[FileEvent::Missing(0), DONE, FINE, DONE, FileEvent::Failed]);
    let failed = WriteStep::Stage(StageStep::Failed(FileError::Io));
    assert_eq!(passed.last(), Some(&failed));
    assert!(temporary);
    let symlink = FileEvent::Inspected(Inspection::Symlink);
    let (passed, temporary) = steps(policy, &[FileEvent::Missing(0), DONE, symlink]);
    let refused = WriteStep::Stage(StageStep::Failed(FileError::Symlink));
    assert_eq!(passed.last(), Some(&refused));
    assert!(!temporary);
    assert_eq!(FileError::Symlink.message(), Some("refusing symlinked state path"));
    assert_eq!(FileError::Io.message(), None);
}

#[test]
fn commits_take_a_temporary_file_and_may_fail_after_the_rename() {
    let policy = AtomicFilePolicy { reject_symlink_destination: false, ..AtomicFilePolicy::durable() };
    let mut file = StagedFile::new(true, true, policy).unwrap();
    assert_eq!(file.commit(), Err(FileError::InvalidInput));
    assert_eq!(file.stage(StageStep::CreateTemporary, DONE), StageStep::WriteContents);
    assert_eq!(file.stage(StageStep::WriteContents, DONE), StageStep::SyncFile);
    assert_eq!(file.stage(StageStep::SyncFile, DONE), StageStep::Staged);
    assert_eq!(file.commit(), Ok(CommitStep::Rename));
    assert_eq!(
        file.commit_step(CommitStep::Rename, FileEvent::Failed),
        CommitStep::Failed(FileError::Io)
    );
    assert!(file.leaves_temporary());
    assert_eq!(file.commit_step(CommitStep::Rename, DONE), CommitStep::SyncParent);
    assert!(!file.leaves_temporary());
    assert_eq!(
        file.commit_step(CommitStep::SyncParent, FileEvent::Failed),
        CommitStep::Failed(FileError::Io)
    );
    assert_eq!(file.commit(), Err(FileError::InvalidInput));
    assert_eq!(StagedFile::new(false, true, policy).unwrap_err(), FileError::InvalidInput);
    assert_eq!(StagedFile::new(true, false, policy).unwrap_err(), FileError::InvalidInput);
}

#[test]
fn bounded_reads_refuse_large_nonregular_and_growing_files() {
    assert_eq!(read_bytes_bounded(2, ReadStep::Open, ReadEvent::NotFound), ReadStep::Missing);
    assert_eq!(read_bytes_bounded(2, ReadStep::Open, ReadEvent::Opened), ReadStep::Inspect);
    let metadata = |regular, length| ReadEvent::Metadata { regular, length };
    let inspect = |event| read_bytes_bounded(2, ReadStep::Inspect, event);
    assert_eq!(inspect(metadata(true, 5)), ReadStep::Refused(ReadError::TooLarge));
    assert_eq!(inspect(metadata(false, 0)), ReadStep::Refused(ReadError::NotRegular));
    assert_eq!(inspect(metadata(true, 2)), ReadStep::Read(3));
    assert_eq!(inspect(ReadEvent::Failed), ReadStep::Failed);
    let read = |bytes: &[u8]| read_bytes_bounded(2, ReadStep::Read(3), ReadEvent::Bytes(bytes.to_vec()));
    assert_eq!(read(b"ab"), ReadStep::Loaded(b"ab".to_vec()));
    assert_eq!(read(b"abc"), ReadStep::Refused(ReadError::Grew));
    assert_eq!(
        read_bytes_bounded(u64::MAX, ReadStep::Inspect, metadata(true, 9)),
        ReadStep::Read(u64::MAX)
    );
    assert_eq!(ReadError::NotRegular.message(), "state is not a regular file");
    assert_eq!(ReadError::TooLarge.message(), "state exceeds read limit");
    assert_eq!(ReadError::Grew.message(), "state grew beyond read limit");
}

/// A directory of files, and a replacement that is carried out in it.
struct Directory {
    files: std::collections::BTreeMap<String, String>,
    sequence: u64,
}

impl Directory {
    fn event(&mut self, step: StageStep, own: &mut Option<String>, contents: &str) -> FileEvent {
        match step {
            StageStep::FindMissing => FileEvent::Missing(0),
            StageStep::InspectDirectory(_) | StageStep::InspectDestination => {
                FileEvent::Inspected(Inspection::Other)
            }
            StageStep::CreateTemporary => {
                let name = format!("state{}", temporary_suffix(7, self.sequence));
                self.sequence += 1;
                if self.files.contains_key(&name) {
                    return FileEvent::NameTaken;
                }
                self.files.insert(name.clone(), String::new());
                *own = Some(name);
                FileEvent::Done
            }
            StageStep::WriteContents => {
                self.files.insert(own.clone().unwrap(), contents.to_owned());
                FileEvent::Done
            }
            _ => FileEvent::Done,
        }
    }

    fn stage(&mut self, contents: &str) -> (StagedFile, String) {
        let mut file = StagedFile::new(true, true, AtomicFilePolicy::private()).unwrap();
        let mut own = None;
        let mut step = StageStep::FindMissing;
        while step != StageStep::Staged {
            let event = self.event(step, &mut own, contents);
            step = file.stage(step, event);
        }
        (file, own.unwrap())
    }

    fn commit(&mut self, file: &mut StagedFile, own: &str) -> Result<(), FileError> {
        let mut step = file.commit()?;
        loop {
            let event = match step {
                CommitStep::InspectDestination => FileEvent::Inspected(Inspection::Other),
                CommitStep::Rename => {
                    let contents = self.files.remove(own).unwrap();
                    self.files.insert("state".to_owned(), contents);
                    FileEvent::Done
                }
                CommitStep::SyncParent => FileEvent::Done,
                CommitStep::Committed => return Ok(()),
                CommitStep::Failed(error) => return Err(error),
            };
            step = file.commit_step(step, event);
        }
    }

    fn drop_file(&mut self, file: StagedFile, own: &str) {
        if file.leaves_temporary() {
            self.files.remove(own);
        }
    }
}

#[test]
fn replacements_are_atomic() {
    let foreign = "state.7-1.tmp".to_owned();
    let before = [("state".to_owned(), "old".to_owned()), (foreign.clone(), "theirs".to_owned())];
    let mut directory = Directory { files: before.clone().into(), sequence: 1 };
    let (file, own) = directory.stage("unwanted");
    assert_eq!(own, "state.7-2.tmp");
    assert_eq!(directory.files["state"], "old");
    assert_eq!(directory.files[&own], "unwanted");
    directory.drop_file(file, &own);
    assert_eq!(directory.files, before.into());

    let (mut file, own) = directory.stage("new");
    assert_eq!(directory.files["state"], "old");
    assert_eq!(directory.commit(&mut file, &own), Ok(()));
    let after = [("state".to_owned(), "new".to_owned()), (foreign, "theirs".to_owned())];
    assert_eq!(directory.files, after.clone().into());
    assert_eq!(directory.commit(&mut file, &own), Err(FileError::InvalidInput));
    directory.drop_file(file, &own);
    assert_eq!(directory.files, after.into());
}
