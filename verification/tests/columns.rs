//! The columns that the alignment passes work with.

use funky::align::{
    align_doxygen_comments, align_enum_equals, align_trailing_comments, enum_eq_col,
    round_up_to_multiple, trailing_comment_col, trailing_doxygen_col,
};
use funky::config::Eol;

fn chars(s: &str) -> Vec<char> {
    s.chars().collect()
}

fn text(s: Vec<char>) -> String {
    s.into_iter().collect()
}

#[test]
fn comment_columns() {
    assert_eq!(trailing_comment_col("int a; // c"), Some(7));
    assert_eq!(trailing_comment_col("int a; /* c */  "), Some(7));
    assert_eq!(trailing_comment_col("int é; // c"), Some(8));
    assert_eq!(trailing_comment_col("2 /* two */ + x"), None);
    assert_eq!(trailing_comment_col("f(/* a */ x); // c"), Some(14));
    assert_eq!(trailing_comment_col("x = \"https://a\";"), None);
    assert_eq!(trailing_comment_col("int a; /* open"), None);
    assert_eq!(trailing_comment_col("int a; /**< doc */"), None);
    assert_eq!(trailing_comment_col("  // alone"), None);
    assert_eq!(trailing_comment_col("/* alone */"), None);
    assert_eq!(trailing_comment_col("#endif // X"), None);
    assert_eq!(trailing_comment_col("   "), None);
    assert_eq!(trailing_comment_col(""), None);
}

#[test]
fn equals_columns() {
    assert_eq!(enum_eq_col("    FOO = 3,"), Some(8));
    assert_eq!(enum_eq_col("    FOO = 3"), Some(8));
    assert_eq!(enum_eq_col("É = f('=', \"=\"),"), Some(3));
    assert_eq!(enum_eq_col("a == b"), None);
    assert_eq!(enum_eq_col("a += b"), None);
    assert_eq!(enum_eq_col("a <= b, c = d"), Some(10));
    assert_eq!(enum_eq_col("f(\"\\\"=\"),"), None);
    assert_eq!(enum_eq_col("FOO = 3;"), None);
    assert_eq!(enum_eq_col("= 3,"), None);
    assert_eq!(enum_eq_col("1 = 3,"), None);
    assert_eq!(enum_eq_col("变量 = 3,"), Some(7));
    assert_eq!(enum_eq_col("…x = 3,"), None);
    assert_eq!(enum_eq_col("x = 两"), Some(2));
    assert_eq!(enum_eq_col("x = 2²"), Some(2));
}

#[test]
fn doxygen_columns() {
    assert_eq!(trailing_doxygen_col("int x; /**< x */"), Some(7));
    assert_eq!(trailing_doxygen_col("int é; /**< x */"), Some(8));
    assert_eq!(trailing_doxygen_col("/**< x */"), None);
    assert_eq!(trailing_doxygen_col("int x; /** x */"), None);
    assert_eq!(trailing_doxygen_col(""), None);
}

#[test]
fn rounding_up() {
    assert_eq!(round_up_to_multiple(0, 4), 0);
    assert_eq!(round_up_to_multiple(1, 4), 4);
    assert_eq!(round_up_to_multiple(4, 4), 4);
    assert_eq!(round_up_to_multiple(9, 4), 12);
    assert_eq!(round_up_to_multiple(7, 0), 7);
}

#[test]
fn comment_group_shares_a_tab_stop() {
    let src = chars("a; // x\nlong_one; // y\n");
    let out = text(align_trailing_comments(&src, Eol::Lf, 1, false, true, 4, 3));
    assert_eq!(out, "a;          // x\nlong_one;   // y\n");
    let out = text(align_trailing_comments(&src, Eol::Lf, 2, false, false, 4, 3));
    assert_eq!(out, "a;         // x\nlong_one;  // y\n");
}

#[test]
fn single_comment_moves_only_when_asked_to() {
    let src = chars("a; // x\nb;\n");
    let same = text(align_trailing_comments(&src, Eol::Lf, 3, false, false, 4, 3));
    assert_eq!(same, "a; // x\nb;\n");
    let moved = text(align_trailing_comments(&src, Eol::Lf, 3, true, false, 4, 3));
    assert_eq!(moved, "a;   // x\nb;\n");
}

#[test]
fn distant_comments_are_not_grouped() {
    let src = chars("a; // x\n\n\nlong_one; // y\n");
    let out = text(align_trailing_comments(&src, Eol::Lf, 1, false, false, 4, 3));
    assert_eq!(out, "a; // x\n\n\nlong_one; // y\n");
    let out = text(align_trailing_comments(&src, Eol::Lf, 1, false, false, 4, 4));
    assert_eq!(out, "a;        // x\n\n\nlong_one; // y\n");
}

#[test]
fn enum_group_bridges_bare_members() {
    let src = chars("A = 1,\r\nB,\r\n\r\n#if X\r\nLONG = 2,\r\n};\r\n");
    let out = text(align_enum_equals(&src, Eol::CrLf, false, 4));
    assert_eq!(
        out,
        "A    = 1,\r\nB,\r\n\r\n#if X\r\nLONG = 2,\r\n};\r\n"
    );
}

#[test]
fn doxygen_group_ends_at_a_blank_line() {
    let src = chars("a; /**< x */\nplain;\nlong_one; /**< y */\n\nb; /**< z */\n");
    let out = text(align_doxygen_comments(&src, Eol::Lf));
    assert_eq!(
        out,
        "a;        /**< x */\nplain;\nlong_one; /**< y */\n\nb; /**< z */\n"
    );
}

#[test]
fn aligning_twice_changes_nothing() {
    let src = chars("a; // x\nlong_one; /* y */\n\nA = 1,\nLONG = 2,\nb; /**< z */\nlonger; /**< w */\n");
    let once = align_trailing_comments(&src, Eol::Lf, 2, true, true, 4, 3);
    assert_eq!(align_trailing_comments(&once, Eol::Lf, 2, true, true, 4, 3), once);
    let once = align_enum_equals(&src, Eol::Lf, true, 4);
    assert_eq!(align_enum_equals(&once, Eol::Lf, true, 4), once);
    let once = align_doxygen_comments(&src, Eol::Lf);
    assert_eq!(align_doxygen_comments(&once, Eol::Lf), once);
}

#[test]
fn no_comment_starts_with_the_end_of_another() {
    assert_eq!(trailing_comment_col("b /* *// y */"), None);
    let src = chars("a; // x\nb /* *// y */\nlong_one; // z\n");
    let once = align_trailing_comments(&src, Eol::Lf, 1, false, false, 4, 3);
    assert_eq!(
        text(once.clone()),
        "a;        // x\nb /* *// y */\nlong_one; // z\n"
    );
    assert_eq!(align_trailing_comments(&once, Eol::Lf, 1, false, false, 4, 3), once);
}

#[test]
fn literals_hold_no_comments() {
    assert_eq!(trailing_comment_col("x = \"a//b\";"), None);
    assert_eq!(trailing_comment_col("x = \"a//b\"; // c"), Some(12));
    assert_eq!(trailing_comment_col("x = \"\\\"//\"; // c"), Some(12));
    assert_eq!(trailing_comment_col("c = '\"'; // c"), Some(9));
    assert_eq!(trailing_comment_col("n = 1'000; // c"), Some(11));
    assert_eq!(trailing_comment_col("r = R\"x(\" // )x\"; // c"), Some(18));
    assert_eq!(trailing_comment_col("s = PTR\"(\"; // c"), Some(12));
    assert_eq!(trailing_doxygen_col("x = \"/**<\";"), None);
    assert_eq!(trailing_doxygen_col("x = \"/**<\"; /**< d */"), Some(12));
    let src = chars("x = \"a  //  b\"; // c\nlonger_than_that = \"a  /**<  b\"; // d\n");
    let out = text(align_trailing_comments(&src, Eol::Lf, 1, false, false, 4, 3));
    assert_eq!(
        out,
        "x = \"a  //  b\";                  // c\nlonger_than_that = \"a  /**<  b\"; // d\n"
    );
}

#[test]
fn a_comment_is_no_part_of_a_member() {
    assert_eq!(enum_eq_col("    int x = 5; // five"), None);
    assert_eq!(enum_eq_col("    FOO = 5, // five"), Some(8));
    assert_eq!(enum_eq_col("    FOO = 5; /* a, */"), None);
    assert_eq!(enum_eq_col("    FOO, // a = b"), None);
    assert_eq!(enum_eq_col("    FOO /* = */ = 5,"), Some(16));
    assert_eq!(enum_eq_col("    FOO == 5,"), None);
    let src = chars("A = 1,\nB, // x = y\nLONG = 2,\n");
    let out = text(align_enum_equals(&src, Eol::Lf, false, 4));
    assert_eq!(out, "A    = 1,\nB, // x = y\nLONG = 2,\n");
}

#[test]
fn any_span_aligns_consecutive_lines() {
    let src = chars("a; // x\nlong_one; // y\nb;\nc; // z\n");
    let out = text(align_trailing_comments(&src, Eol::Lf, 1, false, false, 4, 1));
    assert_eq!(out, "a;        // x\nlong_one; // y\nb;\nc; // z\n");
    let out = text(align_trailing_comments(&src, Eol::Lf, 1, false, false, 4, 0));
    assert_eq!(out, "a; // x\nlong_one; // y\nb;\nc; // z\n");
}

#[test]
fn a_literal_that_goes_on_holds_no_comments() {
    assert_eq!(trailing_comment_col("def\"; // c"), Some(6));
    assert_eq!(trailing_comment_col("x = \"abc \\"), None);
    assert_eq!(trailing_comment_col("x:/// c"), Some(3));
    let src = chars("x = \"a \\\nd // ef\"; // c\nlonger_one_here; // f\n");
    let out = text(align_trailing_comments(&src, Eol::Lf, 1, false, false, 4, 3));
    assert_eq!(
        out,
        "x = \"a \\\nd // ef\";        // c\nlonger_one_here; // f\n"
    );
    let src = chars("s = R\"(a // b\nc // d)\"; // e\nlonger_one; // f\n");
    let out = text(align_trailing_comments(&src, Eol::Lf, 1, false, false, 4, 3));
    assert_eq!(out, "s = R\"(a // b\nc // d)\";   // e\nlonger_one; // f\n");
}
