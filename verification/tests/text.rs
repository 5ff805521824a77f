use mkvedit::ebml::source::ByteSource;
use mkvedit::util::text::decimal;
use mkvedit::util::tree_printer::TreePrinter;

#[test]
fn decimal_digits() {
    assert_eq!(decimal(0), "0");
    assert_eq!(decimal(7), "7");
    assert_eq!(decimal(10), "10");
    assert_eq!(decimal(1234567890), "1234567890");
    assert_eq!(decimal(u64::MAX as u128), "18446744073709551615");
    assert_eq!(decimal(u128::MAX), "340282366920938463463374607431768211455");
}

#[test]
fn tree_printer_draws_branches() {
    let top = TreePrinter::new();
    let mut out = String::new();
    top.node(&mut out, false, "a").unwrap();
    let under_a = top.child_scope(false);
    under_a.node(&mut out, false, "b").unwrap();
    let under_b = under_a.child_scope(false);
    under_b.node(&mut out, true, "c").unwrap();
    under_a.node(&mut out, true, "d").unwrap();
    top.node(&mut out, true, "e").unwrap();
    let under_e = top.child_scope(true);
    under_e.node(&mut out, true, "f").unwrap();
    under_e.child_scope(true).node(&mut out, false, "").unwrap();
    assert_eq!(
        out,
        "├── a
│   ├── b
│   │   └── c
│   └── d
└── e
    └── f
        ├── 
"
    );
    let mut columns = String::from("x");
    under_b.indent(&mut columns);
    assert_eq!(columns, "x│   │   ");
}

#[test]
fn byte_source_reads_and_seeks() {
    let mut source = ByteSource::new(vec![10, 20, 30, 40]);
    assert_eq!(source.len(), 4);
    assert_eq!(source.position(), 0);
    assert!(!source.at_end());
    assert_eq!(source.byte_at(2), Some(30));
    assert_eq!(source.byte_at(4), None);
    assert_eq!(source.slice(1, 2), Some(vec![20, 30]));
    assert_eq!(source.slice(1, 4), None);
    assert_eq!(source.slice(4, 0), Some(vec![]));
    assert_eq!(source.slice(5, 0), None);
    assert_eq!(source.slice(u64::MAX, u64::MAX), None);
    assert_eq!(source.position(), 0);
    assert_eq!(source.read_byte(), Some(10));
    assert_eq!(source.read_exact(2), Some(vec![20, 30]));
    assert_eq!(source.position(), 3);
    assert_eq!(source.read_exact(2), None);
    assert_eq!(source.position(), 3);
    assert_eq!(source.read_byte(), Some(40));
    assert_eq!(source.read_byte(), None);
    assert!(source.at_end());
    source.seek(100);
    assert_eq!(source.position(), 100);
    assert!(source.at_end());
    assert_eq!(source.read_exact(0), None);
    source.seek(1);
    assert_eq!(source.read_byte(), Some(20));
}
