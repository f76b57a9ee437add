use usagi::preprocess::preprocess;

fn pp(src: &str) -> String {
    String::from_utf8(preprocess(src.as_bytes())).unwrap()
}

#[test]
fn rewrites_basic_arithmetic_compounds() {
    assert_eq!(pp("x += 1\n"), "x = x + (1)\n");
    assert_eq!(pp("x -= 2\n"), "x = x - (2)\n");
    assert_eq!(pp("x *= 3\n"), "x = x * (3)\n");
    assert_eq!(pp("x /= 4\n"), "x = x / (4)\n");
    assert_eq!(pp("x %= 5\n"), "x = x % (5)\n");
}

#[test]
fn preserves_indentation() {
    assert_eq!(pp("  x += 1\n"), "  x = x + (1)\n");
    assert_eq!(pp("\tx += 1\n"), "\tx = x + (1)\n");
}

#[test]
fn handles_dotted_and_indexed_lhs() {
    assert_eq!(pp("t.score += 10\n"), "t.score = t.score + (10)\n");
    assert_eq!(pp("a[1] += 5\n"), "a[1] = a[1] + (5)\n");
    assert_eq!(pp("a[i].x += dt\n"), "a[i].x = a[i].x + (dt)\n");
}

#[test]
fn keeps_trailing_short_comment_outside_parens() {
    assert_eq!(pp("x += 1 -- bump\n"), "x = x + (1) -- bump\n");
    assert_eq!(pp("x += 1  -- two spaces\n"), "x = x + (1)  -- two spaces\n");
}

#[test]
fn rhs_can_be_a_full_expression() {
    assert_eq!(pp("x += a + b * c\n"), "x = x + (a + b * c)\n");
    assert_eq!(pp("x *= a + b\n"), "x = x * (a + b)\n");
}

#[test]
fn does_not_rewrite_inside_short_string() {
    assert_eq!(pp("s = \"x += 1\"\n"), "s = \"x += 1\"\n");
}

#[test]
fn does_not_rewrite_inside_block_comment() {
    let input = "--[[\nx += 1\n]]\ny = 0\n";
    let expected = "--[[\nx += 1\n]]\ny = 0\n";
    assert_eq!(pp(input), expected);
}

#[test]
fn does_not_rewrite_inside_long_string() {
    let input = "s = [[\nx += 1\n]]\n";
    assert_eq!(pp(input), input);
}

#[test]
fn does_not_rewrite_when_compound_is_not_at_statement_position() {
    assert_eq!(pp("if c then x += 1 end\n"), "if c then x += 1 end\n");
}

#[test]
fn refuses_when_rhs_contains_long_string_opener() {
    assert_eq!(pp("s += [[hi]]\n"), "s += [[hi]]\n");
}

#[test]
fn long_block_comment_with_levels_resumes_code_after_close() {
    let input = "--[==[\nx += 1\n]==]\ny += 1\n";
    let expected = "--[==[\nx += 1\n]==]\ny = y + (1)\n";
    assert_eq!(pp(input), expected);
}

#[test]
fn pass_through_on_invalid_utf8() {
    let bad = vec![b'x', b' ', b'+', b'=', b' ', 0xff, b'\n'];
    assert_eq!(preprocess(&bad), bad);
}

#[test]
fn preserves_crlf_line_endings() {
    assert_eq!(pp("x += 1\r\n"), "x = x + (1)\r\n");
}

#[test]
fn empty_rhs_is_left_alone() {
    assert_eq!(pp("x +=\n"), "x +=\n");
}

#[test]
fn line_count_is_kept_on_a_mixed_source() {
    let src = "x += 1\n--[[ a\nb += 2 ]] c = 3\ny -= f(1, \"-- not a comment\")\n\nz *= 2 -- end";
    let out = pp(src);
    assert_eq!(out.matches('\n').count(), src.matches('\n').count());
    assert_eq!(
        out,
        "x = x + (1)\n--[[ a\nb += 2 ]] c = 3\ny = y - (f(1, \"-- not a comment\"))\n\nz = z * (2) -- end"
    );
}
