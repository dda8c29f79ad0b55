use mononoke_import::ids::HgChangesetId;
use mononoke_import::parent_order::{
    assemble_fixed_parent_order, read_fixed_parent_order_lines, split_fixed_parent_order,
    ParentOrderError, ParentOrderLine, ParentOrderWarning, ParsedParentOrderLine,
};

const A: &str = "1111111111111111111111111111111111111111";
const B: &str = "2222222222222222222222222222222222222222";
const C: &str = "3333333333333333333333333333333333333333";
const D: &str = "4444444444444444444444444444444444444444";

fn id(text: &str) -> Option<HgChangesetId> {
    if text.len() != 40 {
        return None;
    }
    let mut sha1 = [0u8; 20];
    for i in 0..20 {
        sha1[i] = u8::from_str_radix(text.get(2 * i..2 * i + 2)?, 16).ok()?;
    }
    Some(HgChangesetId { sha1 })
}

fn parse(line: &ParentOrderLine) -> ParsedParentOrderLine {
    ParsedParentOrderLine {
        child: id(&line.child),
        parents: line.parents.iter().map(|p| id(p)).collect(),
        extra_parent: line.extra_parent,
    }
}

fn read(content: &str) -> Vec<ParsedParentOrderLine> {
    read_fixed_parent_order_lines(content.as_bytes())
        .unwrap()
        .iter()
        .map(parse)
        .collect()
}

#[test]
fn lines_are_split_into_fields() {
    let lines = split_fixed_parent_order("a b c\n\nd\ne f g h i\nj k");
    assert_eq!(lines.len(), 4);
    assert_eq!(lines[0].child, "a");
    assert_eq!(lines[0].parents, vec!["b", "c"]);
    assert!(!lines[0].extra_parent);
    assert_eq!(lines[1].child, "d");
    assert!(lines[1].parents.is_empty());
    assert_eq!(lines[2].child, "e");
    assert_eq!(lines[2].parents, vec!["f", "g"]);
    assert!(lines[2].extra_parent);
    assert_eq!(lines[3].child, "j");
    assert_eq!(lines[3].parents, vec!["k"]);
}

#[test]
fn double_space_gives_empty_field() {
    let lines = split_fixed_parent_order("a  b\n");
    assert_eq!(lines.len(), 1);
    assert_eq!(lines[0].child, "a");
    assert_eq!(lines[0].parents, vec!["", "b"]);
    assert!(split_fixed_parent_order("").is_empty());
    assert!(split_fixed_parent_order("\n\n").is_empty());
    let spaces = split_fixed_parent_order(" ");
    assert_eq!(spaces.len(), 1);
    assert_eq!(spaces[0].child, "");
    assert_eq!(spaces[0].parents, vec![""]);
}

#[test]
fn content_must_be_utf8() {
    assert_eq!(
        read_fixed_parent_order_lines(&[0x61, 0xff, 0x0a]).unwrap_err(),
        ParentOrderError::NotUtf8
    );
    let lines = read_fixed_parent_order_lines("é ü\n".as_bytes()).unwrap();
    assert_eq!(lines[0].child, "é");
    assert_eq!(lines[0].parents, vec!["ü"]);
}

#[test]
fn fixed_order_of_two_parents() {
    let content = format!("{} {} {}\n{} {}\n", A, B, C, D, A);
    let assembled = assemble_fixed_parent_order(&read(&content));
    let order = assembled.order.unwrap();
    assert_eq!(order.len(), 2);
    assert_eq!(order.parents_of(&id(A).unwrap()), Some(vec![id(B).unwrap(), id(C).unwrap()]));
    assert_eq!(order.parents_of(&id(D).unwrap()), Some(vec![id(A).unwrap()]));
    assert_eq!(order.parents_of(&id(B).unwrap()), None);
    assert_eq!(assembled.warnings, vec![ParentOrderWarning::SingleParent(id(D).unwrap())]);
}

#[test]
fn no_parents_gives_warning() {
    let content = format!("{}\n", A);
    let assembled = assemble_fixed_parent_order(&read(&content));
    let order = assembled.order.unwrap();
    assert_eq!(order.parents_of(&id(A).unwrap()), Some(vec![]));
    assert_eq!(assembled.warnings, vec![ParentOrderWarning::NoParents(id(A).unwrap())]);
}

#[test]
fn later_line_wins() {
    let content = format!("{} {} {}\n{} {} {}\n", A, B, C, A, C, B);
    let assembled = assemble_fixed_parent_order(&read(&content));
    let order = assembled.order.unwrap();
    assert_eq!(order.len(), 1);
    assert_eq!(order.parents_of(&id(A).unwrap()), Some(vec![id(C).unwrap(), id(B).unwrap()]));
    assert_eq!(assembled.warnings, vec![ParentOrderWarning::FixedTwice(id(A).unwrap())]);
    let entries = order.into_entries();
    assert_eq!(entries, vec![(id(A).unwrap(), vec![id(C).unwrap(), id(B).unwrap()])]);
}

#[test]
fn three_parents_are_refused() {
    let content = format!("{} {} {}\n{} {} {} {}\n", D, A, B, A, B, C, D);
    let assembled = assemble_fixed_parent_order(&read(&content));
    assert_eq!(assembled.order.unwrap_err(), ParentOrderError::TooManyParents { line: 1 });
    // Even a third "parent" that is no changeset id counts as a third parent.
    let content = format!("{} {} {} junk\n", A, B, C);
    let assembled = assemble_fixed_parent_order(&read(&content));
    assert_eq!(assembled.order.unwrap_err(), ParentOrderError::TooManyParents { line: 0 });
}

#[test]
fn invalid_ids_are_refused_in_order() {
    let content = format!("{} {}\nnope {}\n", A, B, C);
    let assembled = assemble_fixed_parent_order(&read(&content));
    assert_eq!(
        assembled.order.unwrap_err(),
        ParentOrderError::InvalidChangesetId { line: 1, field: 0 }
    );
    assert_eq!(assembled.warnings, vec![ParentOrderWarning::SingleParent(id(A).unwrap())]);

    let content = format!("{} bad {}\n", A, C);
    let assembled = assemble_fixed_parent_order(&read(&content));
    assert_eq!(
        assembled.order.unwrap_err(),
        ParentOrderError::InvalidChangesetId { line: 0, field: 1 }
    );

    let content = format!("{} {} bad extra\n", A, B);
    let assembled = assemble_fixed_parent_order(&read(&content));
    assert_eq!(
        assembled.order.unwrap_err(),
        ParentOrderError::InvalidChangesetId { line: 0, field: 2 }
    );

    // The warning for a single parent comes before the parent is checked.
    let content = format!("{} bad\n", A);
    let assembled = assemble_fixed_parent_order(&read(&content));
    assert_eq!(
        assembled.order.unwrap_err(),
        ParentOrderError::InvalidChangesetId { line: 0, field: 1 }
    );
    assert_eq!(assembled.warnings, vec![ParentOrderWarning::SingleParent(id(A).unwrap())]);
}

#[test]
fn trailing_space_makes_an_empty_parent() {
    let content = format!("{} \n", A);
    let assembled = assemble_fixed_parent_order(&read(&content));
    assert_eq!(
        assembled.order.unwrap_err(),
        ParentOrderError::InvalidChangesetId { line: 0, field: 1 }
    );
}

#[test]
fn empty_file_fixes_nothing() {
    let assembled = assemble_fixed_parent_order(&read(""));
    assert_eq!(assembled.order.unwrap().len(), 0);
    assert!(assembled.warnings.is_empty());
}

#[test]
fn extra_empty_lines_change_nothing() {
    let plain = format!("{} {} {}\n{} {}", A, B, C, D, A);
    let spaced = format!("{} {} {}\n\n\n{} {}\n\n", A, B, C, D, A);
    let a = assemble_fixed_parent_order(&read(&plain));
    let b = assemble_fixed_parent_order(&read(&spaced));
    assert_eq!(a.warnings, b.warnings);
    assert_eq!(a.order.unwrap().into_entries(), b.order.unwrap().into_entries());
    let bad = format!("{} {} {} {}\n", A, B, C, D);
    let bad_spaced = format!("\n\n{} {} {} {}\n\n", A, B, C, D);
    assert_eq!(
        assemble_fixed_parent_order(&read(&bad)).order.unwrap_err(),
        assemble_fixed_parent_order(&read(&bad_spaced)).order.unwrap_err()
    );
}
