use tm::errors::TmError;
use tm::model::{Project, ProjectStore, Task};

fn task(text: &str, completed: bool, created: &str, done: Option<&str>, subs: Vec<Task>) -> Task {
    Task {
        text: text.to_string(),
        completed,
        created_at: created.to_string(),
        completed_at: done.map(|s| s.to_string()),
        subtasks: subs,
    }
}

fn task_eq(a: &Task, b: &Task) -> bool {
    a.text == b.text && a.completed == b.completed && a.created_at == b.created_at
        && a.completed_at == b.completed_at && a.subtasks.len() == b.subtasks.len()
        && a.subtasks.iter().zip(b.subtasks.iter()).all(|(x, y)| task_eq(x, y))
}

fn store_eq(a: &ProjectStore, b: &ProjectStore) -> bool {
    a.current_project == b.current_project && a.projects.len() == b.projects.len()
        && a.projects.iter().zip(b.projects.iter()).all(|(p, q)| {
            p.name == q.name && p.created_at == q.created_at && p.tasks.len() == q.tasks.len()
                && p.tasks.iter().zip(q.tasks.iter()).all(|(x, y)| task_eq(x, y))
        })
}

fn sample_store() -> ProjectStore {
    ProjectStore {
        current_project: "wo\"rk".to_string(),
        projects: vec![
            Project {
                name: "default".to_string(),
                tasks: vec![
                    task(
                        "plain",
                        false,
                        "2024-01-02T03:04:05.000006Z",
                        None,
                        vec![task("nested \"deep\"", true, "2024-02-03T00:00:00Z",
                            Some("2024-02-04T00:00:00Z"), vec![])],
                    ),
                    task("tabs\tand\nnewlines\\slashes", true, "2024-03-01T00:00:00Z",
                        Some("2024-03-02T00:00:00Z"), vec![]),
                    task("unicode café 東京 🚀", false, "2024-04-01T00:00:00Z", None, vec![]),
                    task("control\u{1}\u{1f}chars\u{8}\u{c}\r", false,
                        "2024-05-01T00:00:00Z", None, vec![]),
                    task("", false, "2024-06-01T00:00:00Z", None, vec![]),
                ],
                created_at: "2024-01-01T00:00:00Z".to_string(),
            },
            Project {
                name: "wo\"rk".to_string(),
                tasks: vec![],
                created_at: "2024-01-05T00:00:00Z".to_string(),
            },
        ],
    }
}

#[test]
fn save_load_round_trip() {
    let store = sample_store();
    let text = store.to_json();
    let (loaded, migrated) = ProjectStore::load_from_json(&text).expect("round trip must parse");
    assert!(!migrated);
    assert!(store_eq(&store, &loaded));
}

#[test]
fn round_trip_of_fresh_and_mutated_store() {
    let mut store = ProjectStore::new();
    store.add_task(&vec![], "a".to_string()).unwrap();
    store.add_task(&vec![0], "b".to_string()).unwrap();
    store.complete_task(&vec![0, 0]).unwrap();
    store.create_project("side".to_string()).unwrap();
    let text = store.to_json();
    let (loaded, migrated) = ProjectStore::load_from_json(&text).unwrap();
    assert!(!migrated);
    assert!(store_eq(&store, &loaded));
}

#[test]
fn written_text_is_valid_json_with_expected_fields() {
    let store = sample_store();
    let text = store.to_json();
    let v: serde_json::Value = serde_json::from_str(&text).expect("output must be valid JSON");
    assert_eq!(v["current_project"], "wo\"rk");
    assert_eq!(v["projects"].as_array().unwrap().len(), 2);
    assert_eq!(v["projects"][0]["name"], "default");
    assert_eq!(v["projects"][0]["tasks"][0]["text"], "plain");
    assert_eq!(v["projects"][0]["tasks"][0]["completed"], false);
    assert_eq!(v["projects"][0]["tasks"][0]["completed_at"], serde_json::Value::Null);
    assert_eq!(v["projects"][0]["tasks"][0]["subtasks"][0]["text"], "nested \"deep\"");
    assert_eq!(v["projects"][0]["tasks"][3]["text"], "control\u{1}\u{1f}chars\u{8}\u{c}\r");
}

#[test]
fn legacy_array_migrates_to_default_project() {
    let legacy = r#"[
  {
    "text": "old one",
    "completed": false,
    "created_at": "2020-01-01T00:00:00Z",
    "completed_at": null,
    "subtasks": []
  },
  {
    "text": "old two",
    "completed": true,
    "created_at": "2020-01-02T00:00:00Z",
    "completed_at": "2020-01-03T00:00:00Z",
    "subtasks": [
      {
        "text": "old nested",
        "completed": false,
        "created_at": "2020-01-04T00:00:00Z",
        "completed_at": null,
        "subtasks": []
      }
    ]
  }
]"#;
    let (store, migrated) = ProjectStore::load_from_json(legacy).expect("legacy must load");
    assert!(migrated);
    assert_eq!(store.current_project, "default");
    assert_eq!(store.projects.len(), 1);
    assert_eq!(store.projects[0].name, "default");
    let tasks = &store.projects[0].tasks;
    assert_eq!(tasks.len(), 2);
    assert_eq!(tasks[0].text, "old one");
    assert_eq!(tasks[1].text, "old two");
    assert!(tasks[1].completed);
    assert_eq!(tasks[1].subtasks[0].text, "old nested");

    // write-back migration settles: the saved form loads as itself
    let written = store.to_json();
    let (again, migrated_again) = ProjectStore::load_from_json(&written).unwrap();
    assert!(!migrated_again);
    assert!(store_eq(&store, &again));
}

#[test]
fn empty_legacy_array_migrates_to_empty_default() {
    let (store, migrated) = ProjectStore::load_from_json("[]").expect("empty array loads");
    assert!(migrated);
    assert_eq!(store.projects.len(), 1);
    assert!(store.projects[0].tasks.is_empty());
}

#[test]
fn corrupt_text_is_rejected() {
    for bad in ["", "garbage", "{\"x\": 1}", "[{]", "{", "[", "123",
        "{\"current_project\": \"a\"}", "[{\"text\": \"no other fields\"}]"] {
        assert_eq!(
            ProjectStore::load_from_json(bad).err(),
            Some(TmError::DataCorruption),
            "input {:?}",
            bad
        );
    }
}

#[test]
fn whitespace_between_tokens_is_accepted() {
    let text = "  {  \"current_project\"  :  \"default\" ,\n\t\"projects\": [ {\n \"name\": \"default\", \"tasks\": [ ] , \"created_at\": \"2024-01-01T00:00:00Z\" } ]  }  \n";
    let (store, migrated) = ProjectStore::load_from_json(text).expect("spaced text must load");
    assert!(!migrated);
    assert_eq!(store.current_project, "default");
    assert_eq!(store.projects.len(), 1);
    assert!(store.projects[0].tasks.is_empty());
}

#[test]
fn escapes_in_strings_are_decoded() {
    let text = r#"{
  "current_project": "default",
  "projects": [
    {
      "name": "default",
      "tasks": [
        {
          "text": "a\"b\\c\/d\be\ff\ng\rh\tiA\u001f",
          "completed": false,
          "created_at": "2024-01-01T00:00:00Z",
          "completed_at": null,
          "subtasks": []
        }
      ],
      "created_at": "2024-01-01T00:00:00Z"
    }
  ]
}"#;
    let (store, _) = ProjectStore::load_from_json(text).unwrap();
    assert_eq!(
        store.projects[0].tasks[0].text,
        "a\"b\\c/d\u{8}e\u{c}f\ng\rh\tiA\u{1f}"
    );
}

#[test]
fn trailing_garbage_is_rejected() {
    let store = ProjectStore::new();
    let mut text = store.to_json();
    let good = ProjectStore::load_from_json(&text);
    assert!(good.is_ok());
    text.push_str(" x");
    assert_eq!(ProjectStore::load_from_json(&text).err(), Some(TmError::DataCorruption));
}

#[test]
fn written_format_is_pretty_printed_exactly() {
    let store = ProjectStore {
        current_project: "default".to_string(),
        projects: vec![Project {
            name: "default".to_string(),
            tasks: vec![],
            created_at: "2024-01-01T00:00:00Z".to_string(),
        }],
    };
    let expected = "{\n  \"current_project\": \"default\",\n  \"projects\": [\n    {\n      \"name\": \"default\",\n      \"tasks\": [],\n      \"created_at\": \"2024-01-01T00:00:00Z\"\n    }\n  ]\n}";
    assert_eq!(store.to_json(), expected);
}

#[test]
fn deeply_nested_tasks_round_trip() {
    let mut store = ProjectStore::new();
    let mut path: Vec<usize> = vec![];
    for depth in 0..30 {
        store.add_task(&path, format!("level {}", depth)).unwrap();
        path.push(0);
    }
    let text = store.to_json();
    let (loaded, migrated) = ProjectStore::load_from_json(&text).unwrap();
    assert!(!migrated);
    assert!(store_eq(&store, &loaded));
    let mut cursor = &loaded.projects[0].tasks;
    for depth in 0..30 {
        assert_eq!(cursor[0].text, format!("level {}", depth));
        cursor = &cursor[0].subtasks;
    }
}
