use tm::errors::TmError;
use tm::model::{Project, ProjectStore};

#[test]
fn new_store_has_default_project() {
    let store = ProjectStore::new();
    assert_eq!(store.current_project, "default");
    assert_eq!(store.projects.len(), 1);
    assert_eq!(store.projects[0].name, "default");
    assert!(store.projects[0].tasks.is_empty());
}

#[test]
fn create_switch_and_isolation() {
    let mut st = ProjectStore::new();
    assert_eq!(st.create_project("work".to_string()), Ok(()));
    // creating does not switch
    assert_eq!(st.get_current_project_name(), "default");
    assert_eq!(st.switch_project("work".to_string()), Ok(()));
    assert_eq!(st.get_current_project_name(), "work");
    st.add_task(&vec![], "report".to_string()).unwrap();
    assert_eq!(st.get_current_tasks().len(), 1);
    // invisible from default, and vice versa
    st.switch_project("default".to_string()).unwrap();
    assert!(st.get_current_tasks().is_empty());
    st.add_task(&vec![], "groceries".to_string()).unwrap();
    st.switch_project("work".to_string()).unwrap();
    let tasks = st.get_current_tasks();
    assert_eq!(tasks.len(), 1);
    assert_eq!(tasks[0].text, "report");
}

#[test]
fn create_duplicate_fails() {
    let mut st = ProjectStore::new();
    st.create_project("work".to_string()).unwrap();
    assert_eq!(st.create_project("work".to_string()), Err(TmError::AlreadyExists));
    assert_eq!(st.create_project("default".to_string()), Err(TmError::AlreadyExists));
    assert_eq!(st.projects.len(), 2);
}

#[test]
fn switch_missing_fails() {
    let mut st = ProjectStore::new();
    assert_eq!(st.switch_project("nope".to_string()), Err(TmError::NotFound));
    assert_eq!(st.get_current_project_name(), "default");
}

#[test]
fn delete_default_always_fails() {
    let mut st = ProjectStore::new();
    assert_eq!(st.delete_project("default".to_string()), Err(TmError::Protected));
    st.create_project("a".to_string()).unwrap();
    st.create_project("b".to_string()).unwrap();
    assert_eq!(st.delete_project("default".to_string()), Err(TmError::Protected));
    assert_eq!(st.projects.len(), 3);
}

#[test]
fn delete_missing_fails() {
    let mut st = ProjectStore::new();
    assert_eq!(st.delete_project("ghost".to_string()), Err(TmError::NotFound));
}

#[test]
fn delete_current_project_falls_back_to_default() {
    let mut st = ProjectStore::new();
    st.create_project("work".to_string()).unwrap();
    st.switch_project("work".to_string()).unwrap();
    assert_eq!(st.delete_project("work".to_string()), Ok(()));
    assert_eq!(st.get_current_project_name(), "default");
    assert_eq!(st.projects.len(), 1);
}

#[test]
fn delete_other_project_keeps_current() {
    let mut st = ProjectStore::new();
    st.create_project("work".to_string()).unwrap();
    st.create_project("home".to_string()).unwrap();
    st.switch_project("home".to_string()).unwrap();
    assert_eq!(st.delete_project("work".to_string()), Ok(()));
    assert_eq!(st.get_current_project_name(), "home");
}

#[test]
fn dangling_current_project_heals_to_default() {
    let mut st = ProjectStore::new();
    st.add_task(&vec![], "kept".to_string()).unwrap();
    st.current_project = "ghost".to_string();
    let tasks = st.get_current_tasks();
    assert_eq!(tasks.len(), 1);
    assert_eq!(tasks[0].text, "kept");
    assert_eq!(st.get_current_project_name(), "default");
}

#[test]
fn missing_default_is_recreated_on_access() {
    let mut st = ProjectStore::new();
    st.projects.clear();
    st.projects.push(Project {
        name: "only".to_string(),
        tasks: Vec::new(),
        created_at: "2024-01-01T00:00:00Z".to_string(),
    });
    st.current_project = "ghost".to_string();
    assert!(st.get_current_tasks().is_empty());
    assert_eq!(st.get_current_project_name(), "default");
    assert_eq!(st.projects.len(), 2);
    assert_eq!(st.projects[1].name, "default");
}

#[test]
fn duplicate_names_use_first_match() {
    let mut st = ProjectStore::new();
    st.projects.push(Project {
        name: "default".to_string(),
        tasks: Vec::new(),
        created_at: "2024-01-01T00:00:00Z".to_string(),
    });
    st.add_task(&vec![], "into first".to_string()).unwrap();
    assert_eq!(st.projects[0].tasks.len(), 1);
    assert!(st.projects[1].tasks.is_empty());
}

#[test]
fn format_path_renders_dotted_indices() {
    assert_eq!(tm::util::format_path(&vec![]), "");
    assert_eq!(tm::util::format_path(&vec![7]), "7");
    assert_eq!(tm::util::format_path(&vec![1, 0, 12]), "1.0.12");
    assert_eq!(tm::util::format_path(&vec![100, 0]), "100.0");
}

#[test]
fn parse_usize_matches_std() {
    for input in ["0", "42", "+7", "007", "", "+", "-1", " 3", "3 ", "9x", "18446744073709551615",
        "18446744073709551616", "99999999999999999999999"] {
        let chars: Vec<char> = input.chars().collect();
        assert_eq!(tm::util::parse_usize(&chars), input.parse::<usize>().ok(), "input {:?}", input);
    }
}
