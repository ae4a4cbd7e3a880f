//! The desktop shell's states: choosing the folder to deduplicate, then
//! working on it.

use vstd::prelude::*;

verus! {

/// Where the program keeps its settings.
pub struct Config {
    pub conf_dir: String,
}

impl Clone for Config {
    fn clone(&self) -> (r: Self)
        ensures
            r == *self,
    {
        Config { conf_dir: self.conf_dir.clone() }
    }
}

/// Waiting for the user to choose a folder. `problem` holds why the last
/// choice failed: `None` when no folder was chosen, or the path that does not
/// exist.
pub struct Init {
    pub config: Config,
    pub problem: Result<(), Option<String>>,
}

/// A folder was chosen and is being deduplicated.
pub struct Work {
    pub config: Config,
    pub path: String,
}

pub enum State {
    Init(Init),
    Work(Work),
}

/// What the user asked for.
#[derive(Debug, Clone, Copy, PartialEq, Eq, Structural)]
pub enum Message {
    /// Choose the folder to deduplicate.
    GetWorkDir,
}

/// What came back from the folder picker.
pub enum FolderChoice {
    /// The picker was closed without a choice.
    Cancelled,
    /// A folder was chosen; `exists` tells whether it is on disk.
    Picked { path: String, exists: bool },
}

impl State {
    /// The first state: no folder chosen, nothing gone wrong.
    pub fn new(conf_dir: String) -> (r: State)
        ensures
            r == State::Init(Init { config: Config { conf_dir }, problem: Ok(()) }),
    {
        State::Init(Init { config: Config { conf_dir }, problem: Ok(()) })
    }

    /// Handles a message, given what the folder picker returned. An existing
    /// folder starts the work on it; otherwise the state records why the
    /// choice failed. A state that is already working stays as it is.
    pub fn update(&mut self, message: Message, choice: FolderChoice)
        ensures
            match *old(self) {
                State::Init(init) => match choice {
                    FolderChoice::Cancelled => *final(self) == State::Init(
                        Init { config: init.config, problem: Err(None) },
                    ),
                    FolderChoice::Picked { path, exists } => if exists {
                        *final(self) == State::Work(Work { config: init.config, path })
                    } else {
                        *final(self) == State::Init(
                            Init { config: init.config, problem: Err(Some(path)) },
                        )
                    },
                },
                State::Work(_) => *final(self) == *old(self),
            },
    {
        match message {
            Message::GetWorkDir => {
                let next = match self {
                    State::Init(init) => match choice {
                        FolderChoice::Picked { path, exists } => {
                            if exists {
                                Some(State::Work(Work { config: init.config.clone(), path }))
                            } else {
                                init.problem = Err(Some(path));
                                None
                            }
                        },
                        FolderChoice::Cancelled => {
                            init.problem = Err(None);
                            None
                        },
                    },
                    State::Work(_) => None,
                };
                if let Some(s) = next {
                    *self = s;
                }
            },
        }
    }
}

} // verus!
