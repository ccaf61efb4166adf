use cocos_engine::command_buffer::{Command, CommandBuffer, LambdaCommand};
use std::sync::{Arc, Mutex};

struct IncrementCommand {
    counter: Arc<Mutex<i32>>,
    delta: i32,
}

impl Command for IncrementCommand {
    fn execute(&mut self) {
        *self.counter.lock().unwrap() += self.delta;
    }
    fn undo(&mut self) {
        *self.counter.lock().unwrap() -= self.delta;
    }
    fn description(&self) -> &str {
        "increment"
    }
}

struct SilentCommand;

impl Command for SilentCommand {
    fn execute(&mut self) {}
    fn undo(&mut self) {}
    fn description(&self) -> &str {
        ""
    }
}

fn make_buf() -> CommandBuffer {
    CommandBuffer::new(10)
}

#[test]
fn test_command_buffer_new() {
    let buf = make_buf();
    assert!(!buf.can_undo());
    assert!(!buf.can_redo());
    assert_eq!(buf.get_command_count(), 0);
}

#[test]
fn test_execute_command() {
    let counter = Arc::new(Mutex::new(0));
    let mut buf = make_buf();
    buf.execute(IncrementCommand { counter: Arc::clone(&counter), delta: 5 });
    assert_eq!(*counter.lock().unwrap(), 5);
    assert!(buf.can_undo());
    assert_eq!(buf.get_command_count(), 1);
}

#[test]
fn test_undo() {
    let counter = Arc::new(Mutex::new(0));
    let mut buf = make_buf();
    buf.execute(IncrementCommand { counter: Arc::clone(&counter), delta: 10 });
    let ok = buf.undo();
    assert!(ok);
    assert_eq!(*counter.lock().unwrap(), 0);
    assert!(!buf.can_undo());
    assert!(buf.can_redo());
}

#[test]
fn test_redo() {
    let counter = Arc::new(Mutex::new(0));
    let mut buf = make_buf();
    buf.execute(IncrementCommand { counter: Arc::clone(&counter), delta: 3 });
    buf.undo();
    let ok = buf.redo();
    assert!(ok);
    assert_eq!(*counter.lock().unwrap(), 3);
    assert!(!buf.can_redo());
}

#[test]
fn test_new_command_clears_redo() {
    let counter = Arc::new(Mutex::new(0));
    let mut buf = make_buf();
    buf.execute(IncrementCommand { counter: Arc::clone(&counter), delta: 1 });
    buf.undo();
    assert!(buf.can_redo());
    buf.execute(IncrementCommand { counter: Arc::clone(&counter), delta: 2 });
    assert!(!buf.can_redo());
}

#[test]
fn test_undo_empty_returns_false() {
    let mut buf = make_buf();
    assert!(!buf.undo());
}

#[test]
fn test_redo_empty_returns_false() {
    let mut buf = make_buf();
    assert!(!buf.redo());
}

#[test]
fn test_max_history_limit() {
    let counter = Arc::new(Mutex::new(0));
    let mut buf = CommandBuffer::new(3);
    for i in 0..5 {
        buf.execute(IncrementCommand { counter: Arc::clone(&counter), delta: i });
    }
    assert_eq!(buf.undo_count(), 3);
}

#[test]
fn command_buffer_test_clear() {
    let counter = Arc::new(Mutex::new(0));
    let mut buf = make_buf();
    buf.execute(IncrementCommand { counter: Arc::clone(&counter), delta: 1 });
    buf.undo();
    buf.clear();
    assert!(!buf.can_undo());
    assert!(!buf.can_redo());
}

#[test]
fn test_lambda_command() {
    let state = Arc::new(Mutex::new(0i32));
    let s_exec = Arc::clone(&state);
    let s_undo = Arc::clone(&state);
    let cmd = LambdaCommand::new(
        "set_10",
        move || {
            *s_exec.lock().unwrap() = 10;
        },
        move || {
            *s_undo.lock().unwrap() = 0;
        },
    );
    let mut buf = make_buf();
    buf.execute(cmd);
    assert_eq!(*state.lock().unwrap(), 10);
    buf.undo();
    assert_eq!(*state.lock().unwrap(), 0);
    buf.redo();
    assert_eq!(*state.lock().unwrap(), 10);
}

#[test]
fn test_history_descriptions() {
    let counter = Arc::new(Mutex::new(0));
    let mut buf = make_buf();
    buf.execute(IncrementCommand { counter: Arc::clone(&counter), delta: 1 });
    buf.execute(IncrementCommand { counter: Arc::clone(&counter), delta: 2 });
    let descs = buf.get_history_descriptions();
    assert_eq!(descs.len(), 2);
    assert!(descs.iter().all(|&d| d == "increment"));
}

#[test]
fn test_multi_undo_redo_sequence() {
    let counter = Arc::new(Mutex::new(0));
    let mut buf = make_buf();
    for i in 1..=5 {
        buf.execute(IncrementCommand { counter: Arc::clone(&counter), delta: i });
    }
    assert_eq!(*counter.lock().unwrap(), 15);
    for _ in 0..3 {
        buf.undo();
    }
    assert_eq!(*counter.lock().unwrap(), 3);
    for _ in 0..2 {
        buf.redo();
    }
    assert_eq!(*counter.lock().unwrap(), 10);
}

#[test]
fn test_set_max_history_shrinks() {
    let counter = Arc::new(Mutex::new(0));
    let mut buf = make_buf();
    for i in 0..8 {
        buf.execute(IncrementCommand { counter: Arc::clone(&counter), delta: i });
    }
    assert_eq!(buf.undo_count(), 8);
    buf.set_max_history(4);
    assert_eq!(buf.undo_count(), 4);
}

#[test]
fn test_undo_then_redo_restores_counts() {
    let counter = Arc::new(Mutex::new(0));
    let mut buf = make_buf();
    buf.execute(IncrementCommand { counter: Arc::clone(&counter), delta: 2 });
    buf.execute(IncrementCommand { counter: Arc::clone(&counter), delta: 3 });
    assert!(buf.undo());
    assert!(buf.redo());
    assert_eq!(buf.undo_count(), 2);
    assert_eq!(buf.redo_count(), 0);
    assert_eq!(*counter.lock().unwrap(), 5);
    assert_eq!(buf.get_command_count(), 2);
}

#[test]
fn test_zero_max_history_keeps_last_command() {
    let mut buf = CommandBuffer::new(0);
    buf.execute(SilentCommand);
    buf.execute(SilentCommand);
    assert_eq!(buf.undo_count(), 1);
    assert_eq!(buf.get_max_history(), 0);
}

#[test]
fn test_redo_not_counted_as_execution() {
    let mut buf = make_buf();
    buf.execute(SilentCommand);
    buf.undo();
    buf.redo();
    assert_eq!(buf.get_command_count(), 1);
}

#[test]
fn test_clear_redo_keeps_history() {
    let mut buf = make_buf();
    buf.execute(SilentCommand);
    buf.execute(SilentCommand);
    buf.undo();
    buf.clear_redo();
    assert_eq!(buf.undo_count(), 1);
    assert_eq!(buf.redo_count(), 0);
}

#[test]
fn test_default_buffer_limit() {
    let buf = CommandBuffer::default();
    assert_eq!(buf.get_max_history(), 100);
    let descs = buf.get_history_descriptions();
    assert!(descs.is_empty());
}

#[test]
fn test_default_description_is_empty() {
    let mut buf = make_buf();
    buf.execute_boxed(Box::new(SilentCommand));
    assert_eq!(buf.get_history_descriptions(), vec![""]);
}

#[test]
fn test_set_max_history_keeps_newest() {
    let mut buf = make_buf();
    buf.execute(LambdaCommand::new("a", || {}, || {}));
    buf.execute(LambdaCommand::new("b", || {}, || {}));
    buf.execute(LambdaCommand::new("c", || {}, || {}));
    buf.set_max_history(2);
    assert_eq!(buf.get_history_descriptions(), vec!["b", "c"]);
}

#[test]
fn test_set_max_history_keeps_newest_descriptions() {
    let counter = Arc::new(Mutex::new(0));
    let mut buf = make_buf();
    for i in 0..6 {
        let name = format!("step {}", i);
        let c1 = Arc::clone(&counter);
        let c2 = Arc::clone(&counter);
        buf.execute(LambdaCommand::new(
            name.as_str(),
            move || *c1.lock().unwrap() += 1,
            move || *c2.lock().unwrap() -= 1,
        ));
    }
    buf.set_max_history(3);
    assert_eq!(buf.get_history_descriptions(), vec!["step 3", "step 4", "step 5"]);
    assert_eq!(buf.redo_count(), 0);
}
