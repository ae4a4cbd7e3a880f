use file_deduplicator::state::{FolderChoice, Init, Message, State};

fn init_state() -> State {
    State::new("/home/u/.file-deduplicator".to_string())
}

#[test]
fn cancelled_choice_is_reported() {
    let mut s = init_state();
    s.update(Message::GetWorkDir, FolderChoice::Cancelled);
    match s {
        State::Init(Init { problem: Err(None), config }) => {
            assert_eq!(config.conf_dir, "/home/u/.file-deduplicator")
        }
        _ => panic!("expected the cancelled choice to be recorded"),
    }
}

#[test]
fn missing_folder_is_reported() {
    let mut s = init_state();
    s.update(Message::GetWorkDir, FolderChoice::Picked { path: "/nope".to_string(), exists: false });
    match s {
        State::Init(Init { problem: Err(Some(p)), .. }) => assert_eq!(p, "/nope"),
        _ => panic!("expected the missing folder to be recorded"),
    }
}

#[test]
fn existing_folder_starts_work() {
    let mut s = init_state();
    s.update(Message::GetWorkDir, FolderChoice::Picked { path: "/data".to_string(), exists: true });
    match &s {
        State::Work(w) => {
            assert_eq!(w.path, "/data");
            assert_eq!(w.config.conf_dir, "/home/u/.file-deduplicator");
        }
        _ => panic!("expected work to start"),
    }
    s.update(Message::GetWorkDir, FolderChoice::Picked { path: "/other".to_string(), exists: true });
    match &s {
        State::Work(w) => assert_eq!(w.path, "/data"),
        _ => panic!("expected work to continue"),
    }
}
