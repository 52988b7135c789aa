use yclass::bytes::ByteOrder;
use yclass::error::Error;
use yclass::eval::{eval, Token};
use yclass::process::{ProcessInterface, Snapshot};

fn process() -> Snapshot {
    let mut process = Snapshot::new(ByteOrder::host());
    process.add(0x1000, vec![0; 16]);
    process.add_module(String::from("game.exe"), 0x40_0000, vec![0; 16]);
    process.add_module(String::from("engine.dll"), 0x7000_0000, vec![0; 16]);
    process
}

fn value(expr: &str) -> Option<usize> {
    eval(expr, &process()).ok()
}

#[test]
fn modules_are_found_by_their_names() {
    let process = process();
    assert_eq!(process.module_base(Some("engine.dll")), Some(0x7000_0000));
    assert_eq!(process.module_base(Some("game.exe")), Some(0x40_0000));
    assert_eq!(process.module_base(None), Some(0x40_0000));
    assert_eq!(process.module_base(Some("missing")), None);
    assert_eq!(Snapshot::new(ByteOrder::host()).module_base(None), None);
}

#[test]
fn numbers_are_hexadecimal() {
    assert_eq!(value("10"), Some(0x10));
    assert_eq!(value("0x10"), Some(0x10));
    assert_eq!(value("  ff\t"), Some(0xff));
    assert_eq!(value("DEADbeef"), Some(0xDEAD_BEEF));
    assert_eq!(value("ffffffffffffffff"), Some(usize::MAX));
    assert_eq!(value("10000000000000000"), None);
    assert_eq!(value("1_0"), None);
    assert_eq!(value("0x"), None);
    assert_eq!(value("g"), None);
    assert_eq!(value(""), None);
    assert_eq!(value("   "), None);
}

#[test]
fn operators_bind_as_usual() {
    assert_eq!(value("1 + 2"), Some(3));
    assert_eq!(value("1+2*3"), Some(7));
    assert_eq!(value("(1+2)*3"), Some(9));
    assert_eq!(value("10 - 4 - 2"), Some(0x10 - 4 - 2));
    assert_eq!(value("40 / 4 / 2"), Some(0x40 / 4 / 2));
    assert_eq!(value("2 * 3 + 4 * 5"), Some(26));
    assert_eq!(value("2 * (3 + 4) * 5"), Some(70));
    assert_eq!(value("((7))"), Some(7));
    assert_eq!(value("a-b"), Some(10usize.wrapping_sub(11)));
    assert_eq!(value("ffffffffffffffff + 2"), Some(1));
    assert_eq!(value("ffffffffffffffff * 2"), Some(usize::MAX.wrapping_mul(2)));
}

#[test]
fn offsets_are_counted_from_their_module() {
    assert_eq!(value("engine.dll:$10"), Some(0x7000_0010));
    assert_eq!(value("game.exe:$0x20 + 4"), Some(0x40_0024));
    assert_eq!(value(":$8"), Some(0x40_0008));
    assert_eq!(value("engine.dll:$10 - game.exe:$0"), Some(0x7000_0010 - 0x40_0000));
    assert_eq!(value("abc:$1"), None);
    assert_eq!(value("engine.dll:$"), None);
    assert_eq!(value("engine.dll:$ffffffffffffffff"), Some(0x6fff_ffff));
}

#[test]
fn faults_are_told_apart() {
    assert!(matches!(eval("1 +", &process()), Err(Error::AddrEval)));
    assert!(matches!(eval("nope:$1", &process()), Err(Error::MissingModule(name)) if name == "nope"));
    assert!(matches!(
        eval(":$1", &Snapshot::new(ByteOrder::host())),
        Err(Error::MissingModule(name)) if name.is_empty()
    ));
    // The module is looked up before the rest is read.
    assert!(matches!(eval("nope:$1 ?", &process()), Err(Error::MissingModule(_))));
    assert!(matches!(eval("? nope:$1", &process()), Err(Error::AddrEval)));
    // The offset is read before the module is looked up.
    assert!(matches!(eval("nope:$", &process()), Err(Error::AddrEval)));
}

#[test]
fn what_cannot_be_worked_off_is_a_fault() {
    assert_eq!(value("+"), None);
    assert_eq!(value("1 +"), None);
    assert_eq!(value("+ 1"), None);
    assert_eq!(value("1 / 0"), None);
    assert_eq!(value("(1"), None);
    assert_eq!(value("1)"), None);
    assert_eq!(value("()"), None);
    assert_eq!(value("@"), None);
    assert_eq!(value("@:8 10"), None);
    assert_eq!(value("10 @"), None);
    assert_eq!(value("1 ? 2"), None);
    assert_eq!(value("1 é"), None);
    assert_eq!(value("1\r"), None);
}

#[test]
fn of_numbers_side_by_side_the_last_one_counts() {
    assert_eq!(value("1 2"), Some(2));
    assert_eq!(value("(1)(2)"), Some(2));
    assert_eq!(value("1 2 +"), Some(3));
    assert_eq!(value("0x1:$2"), Some(0x40_0002));
}

#[test]
fn operators_have_their_precedence() {
    assert_eq!(Token::Add.precedence(), 2);
    assert_eq!(Token::Sub.precedence(), 2);
    assert_eq!(Token::Mul.precedence(), 3);
    assert_eq!(Token::Div.precedence(), 3);
    assert_eq!(Token::Deref.precedence(), 4);
}
