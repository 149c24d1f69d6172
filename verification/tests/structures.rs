use trove::generator::CodeBlock;
use trove::typecheck::SymTable;

fn block(statements: &[&str], index: usize) -> CodeBlock {
    CodeBlock { statements: statements.iter().map(|s| String::from(*s)).collect(), index }
}

fn texts(b: &CodeBlock) -> Vec<&str> {
    b.statements.iter().map(|s| s.as_str()).collect()
}

#[test]
fn new_stmt_adds_after_current() {
    let mut b = block(&["a", "b"], 0);
    b.new_stmt();
    assert_eq!(texts(&b), vec!["a", "", "b"]);
    assert_eq!(b.index, 1);
}

#[test]
fn new_stmt_at_offset() {
    let mut b = block(&["a", "b"], 1);
    b.new_stmt_at(-1);
    assert_eq!(texts(&b), vec!["", "a", "b"]);
    assert_eq!(b.index, 0);
    let mut b = block(&["a", "b"], 1);
    b.new_stmt_at(1);
    assert_eq!(texts(&b), vec!["a", "b", ""]);
    assert_eq!(b.index, 2);
}

#[test]
fn set_current_inserts_at_current_position() {
    let mut b = block(&["a", "b"], 1);
    b.set_current(String::from("x"));
    assert_eq!(texts(&b), vec!["a", "x", "b"]);
    assert_eq!(b.index, 1);
}

#[test]
fn set_at_beginning_inserts_first() {
    let mut b = block(&["a", "b"], 1);
    b.set_at_beginning(String::from("x"));
    assert_eq!(texts(&b), vec!["x", "a", "b"]);
    assert_eq!(b.index, 1);
}

#[test]
fn set_at_offset() {
    let mut b = block(&["a", "b"], 0);
    b.set_at(2, String::from("x"));
    assert_eq!(texts(&b), vec!["a", "b", "x"]);
    assert_eq!(b.index, 0);
}

#[test]
fn append_current_extends_current_statement() {
    let mut b = block(&["a", "b"], 1);
    b.append_current(String::from("c"));
    b.append_current(String::from("d"));
    assert_eq!(texts(&b), vec!["a", "bcd"]);
    assert_eq!(b.index, 1);
}

#[test]
fn append_at_beginning_extends_first_statement() {
    let mut b = block(&["a", "b"], 1);
    b.append_at_beginning(String::from("c"));
    assert_eq!(texts(&b), vec!["ac", "b"]);
}

#[test]
fn append_at_offset() {
    let mut b = block(&["a", "b", "c"], 2);
    b.append_at(-2, String::from("x"));
    b.append_at(0, String::from("y"));
    assert_eq!(texts(&b), vec!["ax", "b", "cy"]);
    assert_eq!(b.index, 2);
}

#[test]
fn symtable_get_after_add() {
    let mut t: SymTable<u32> = SymTable::new();
    assert_eq!(t.get(String::from("x")), None);
    t.add(String::from("x"), 1);
    t.add(String::from("y"), 2);
    assert_eq!(t.get(String::from("x")), Some(&1));
    assert_eq!(t.get(String::from("y")), Some(&2));
    assert_eq!(t.get(String::from("z")), None);
}

#[test]
fn symtable_add_replaces() {
    let mut t: SymTable<u32> = SymTable::new();
    t.add(String::from("x"), 1);
    t.add(String::from("x"), 5);
    assert_eq!(t.get(String::from("x")), Some(&5));
}

#[test]
fn symtable_new_scope_hides_and_leave_scope_restores() {
    let mut t: SymTable<u32> = SymTable::new();
    t.add(String::from("x"), 1);
    t.new_scope();
    assert_eq!(t.get(String::from("x")), None);
    t.add(String::from("x"), 9);
    assert_eq!(t.get(String::from("x")), Some(&9));
    t.leave_scope();
    assert_eq!(t.get(String::from("x")), Some(&1));
}
