use notebook::amount::parse_amount;
use notebook::budget::Budget;
use notebook::budget::BudgetOp;
use notebook::note::Note;
use notebook::state::AppState;
use notebook::store::Store;
use notebook::store::TaskRow;
use notebook::task::Task;
use notebook::text::is_blank;
use notebook::text::str_eq;

fn fresh_state() -> AppState {
    AppState::from_loaded(Vec::new(), Vec::new(), 0, 0)
}

#[test]
fn parse_amount_integer_and_fraction() {
    assert_eq!(parse_amount("100.5"), Some(10050));
    assert_eq!(parse_amount("40"), Some(4000));
    assert_eq!(parse_amount("0"), Some(0));
    assert_eq!(parse_amount("12.34"), Some(1234));
    assert_eq!(parse_amount("12."), Some(1200));
    assert_eq!(parse_amount("7.2"), Some(720));
    assert_eq!(parse_amount(".5"), Some(50));
    assert_eq!(parse_amount(".55"), Some(55));
    assert_eq!(parse_amount("-.25"), Some(-25));
}

#[test]
fn parse_amount_signs_and_whitespace() {
    assert_eq!(parse_amount("-3.25"), Some(-325));
    assert_eq!(parse_amount("+7.2"), Some(720));
    assert_eq!(parse_amount("  12  "), Some(1200));
    assert_eq!(parse_amount("\t-1\n"), Some(-100));
    assert_eq!(parse_amount("\u{00A0}7\u{00A0}"), Some(700));
    assert_eq!(parse_amount("\u{2009}3.5\u{3000}"), Some(350));
}

#[test]
fn parse_amount_rejections() {
    assert_eq!(parse_amount("abc"), None);
    assert_eq!(parse_amount(""), None);
    assert_eq!(parse_amount("   "), None);
    assert_eq!(parse_amount("."), None);
    assert_eq!(parse_amount(".555"), None);
    assert_eq!(parse_amount("1.234"), None);
    assert_eq!(parse_amount("1..2"), None);
    assert_eq!(parse_amount("1e5"), None);
    assert_eq!(parse_amount("12x"), None);
    assert_eq!(parse_amount("-"), None);
    assert_eq!(parse_amount("1 2"), None);
}

#[test]
fn parse_amount_digit_limit() {
    assert_eq!(parse_amount("9999999999999999"), Some(999999999999999900));
    assert_eq!(parse_amount("99999999999999999"), None);
}

#[test]
fn blank_note_is_ignored() {
    let mut st = fresh_state();
    st.note_input = "   ".to_string();
    let saved = st.add_note();
    assert!(saved.is_none());
    assert!(st.notes.is_empty());
    assert_eq!(st.note_input, "   ");
}

#[test]
fn unicode_whitespace_note_is_ignored() {
    let mut st = fresh_state();
    st.note_input = "\u{00A0}\u{000C}\u{2028}".to_string();
    let saved = st.add_note();
    assert!(saved.is_none());
    assert!(st.notes.is_empty());
    assert_eq!(st.note_input, "\u{00A0}\u{000C}\u{2028}");
}

#[test]
fn note_submission_appends_and_clears() {
    let mut st = fresh_state();
    st.note_input = "buy milk".to_string();
    let saved = st.add_note();
    assert_eq!(saved.as_deref(), Some("buy milk"));
    assert_eq!(st.notes, vec!["buy milk".to_string()]);
    assert_eq!(st.note_input, "");
}

#[test]
fn blank_task_is_ignored() {
    let mut st = fresh_state();
    st.task_input = "\t\n".to_string();
    let saved = st.add_task();
    assert!(saved.is_none());
    assert!(st.tasks.is_empty());
    assert_eq!(st.task_input, "\t\n");
}

#[test]
fn task_submission_appends_and_clears() {
    let mut st = fresh_state();
    st.task_input = "water plants".to_string();
    let saved = st.add_task();
    assert_eq!(saved.as_deref(), Some("water plants"));
    assert_eq!(st.tasks, vec!["water plants".to_string()]);
    assert_eq!(st.task_input, "");
}

#[test]
fn invalid_budget_input_is_a_no_op() {
    let mut st = fresh_state();
    st.income = 500;
    st.expenses = 200;
    st.balance = 300;
    st.budget_input = "abc".to_string();
    st.add_income();
    assert_eq!(st.income, 500);
    assert_eq!(st.expenses, 200);
    assert_eq!(st.balance, 300);
    assert_eq!(st.budget_input, "abc");
    st.add_expense();
    assert_eq!(st.income, 500);
    assert_eq!(st.expenses, 200);
    assert_eq!(st.balance, 300);
    assert_eq!(st.budget_input, "abc");
}

#[test]
fn budget_scenario() {
    let mut st = fresh_state();
    st.budget_input = "100.5".to_string();
    st.add_income();
    assert_eq!(st.balance, 10050);
    assert_eq!(st.budget_input, "");
    st.budget_input = "40".to_string();
    st.add_expense();
    assert_eq!(st.balance, 6050);
    assert_eq!(st.budget_input, "");
    st.budget_input = "abc".to_string();
    st.add_income();
    assert_eq!(st.balance, 6050);
    assert_eq!(st.budget_input, "abc");
}

#[test]
fn delete_note_removes_all_duplicates() {
    let notes = vec!["a".to_string(), "b".to_string(), "a".to_string()];
    let mut st = AppState::from_loaded(notes, Vec::new(), 0, 0);
    st.delete_note("a");
    assert_eq!(st.notes, vec!["b".to_string()]);
}

#[test]
fn delete_task_removes_all_duplicates() {
    let tasks = vec!["x".to_string(), "x".to_string(), "y".to_string(), "x".to_string()];
    let mut st = AppState::from_loaded(Vec::new(), tasks, 0, 0);
    st.delete_task("x");
    assert_eq!(st.tasks, vec!["y".to_string()]);
}

#[test]
fn store_delete_removes_all_matching_rows() {
    let mut store = Store::new();
    store.insert_note("dup");
    store.insert_note("keep");
    store.insert_note("dup");
    store.delete_note("dup");
    assert_eq!(store.load_notes(), vec!["keep".to_string()]);

    store.insert_task("t", false);
    store.insert_task("t", false);
    store.insert_task("u", false);
    store.delete_task("t");
    assert_eq!(store.load_tasks(), vec!["u".to_string()]);
}

#[test]
fn task_rows_keep_their_flags() {
    let mut store = Store::new();
    store.insert_task("done", true);
    store.insert_task("gone", false);
    store.insert_task("open", false);
    assert_eq!(store.tasks[0].description, "done");
    assert!(store.tasks[0].completed);
    assert!(!store.tasks[1].completed);
    store.delete_task("gone");
    assert_eq!(store.tasks.len(), 2);
    assert_eq!(store.tasks[0].description, "done");
    assert!(store.tasks[0].completed);
    assert_eq!(store.tasks[1].description, "open");
    assert!(!store.tasks[1].completed);

    let mut mixed = Store {
        notes: Vec::new(),
        tasks: vec![
            TaskRow { description: "t".to_string(), completed: true },
            TaskRow { description: "u".to_string(), completed: true },
            TaskRow { description: "t".to_string(), completed: false },
        ],
        budget_rows: Vec::new(),
    };
    mixed.delete_task("t");
    assert_eq!(mixed.tasks.len(), 1);
    assert_eq!(mixed.tasks[0].description, "u");
    assert!(mixed.tasks[0].completed);
}

#[test]
fn notes_round_trip_multiset() {
    let mut store = Store::new();
    let saved = vec!["one".to_string(), "two".to_string(), "one".to_string()];
    for c in &saved {
        store.insert_note(c);
    }
    let mut loaded = store.load_notes();
    assert_eq!(loaded.len(), saved.len());
    let mut expected = saved.clone();
    loaded.sort();
    expected.sort();
    assert_eq!(loaded, expected);
}

#[test]
fn load_budget_defaults_to_zero() {
    let store = Store::new();
    assert_eq!(store.load_budget(), (0, 0));
    let filled = Store {
        notes: Vec::new(),
        tasks: Vec::new(),
        budget_rows: vec![(1250, 300), (7, 8)],
    };
    assert_eq!(filled.load_budget(), (1250, 300));
}

#[test]
fn budget_totals_follow_operations() {
    let mut b = Budget::new();
    b.add_income(300);
    b.add_expense(200);
    b.apply_op(&BudgetOp::Income(500));
    b.apply_op(&BudgetOp::Expense(100));
    assert_eq!(b.income, 800);
    assert_eq!(b.expenses, 300);
    assert_eq!(b.balance(), 500);
}

#[test]
fn from_loaded_derives_balance() {
    let st = AppState::from_loaded(Vec::new(), Vec::new(), 10050, 4000);
    assert_eq!(st.balance, 6050);
    assert_eq!(st.note_input, "");
    assert_eq!(st.task_input, "");
    assert_eq!(st.budget_input, "");
}

#[test]
fn note_display_shows_both_fields() {
    let n = Note::new("shopping".to_string(), "milk and eggs".to_string());
    assert_eq!(n.display(), "Title: shopping\nContent: milk and eggs\n");
}

#[test]
fn task_display_shows_status() {
    let mut t = Task::new("water plants".to_string());
    assert!(!t.completed);
    assert_eq!(t.display(), "Task: water plants - Status: Pending");
    t.complete();
    assert!(t.completed);
    assert_eq!(t.display(), "Task: water plants - Status: Completed");
}

#[test]
fn text_helpers() {
    assert!(is_blank(""));
    assert!(is_blank(" \t\r\n"));
    assert!(!is_blank(" a "));
    assert!(str_eq("abc", "abc"));
    assert!(!str_eq("abc", "abd"));
    assert!(!str_eq("abc", "ab"));
}
