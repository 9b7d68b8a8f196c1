use sgash::console::Geometry;
use sgash::action::Action;
use sgash::shell::{init, parsekey, Shell, BG_COLOR2, BG_COLOR3, FG_COLOR1, FG_COLOR2, START_SCHEME, BANNER};

fn geo() -> Geometry {
    Geometry { cursor_width: 8, cursor_height: 16, screen_width: 640 }
}

fn uart(s: &str) -> Action {
    Action::Uart(s.as_bytes().to_vec())
}

fn pal(s: &str) -> Action {
    Action::DrawPalette(s.as_bytes().to_vec())
}

fn same(a: &Action, b: &Action) -> bool {
    match (a, b) {
        (Action::Uart(x), Action::Uart(y)) => x == y,
        (Action::Draw(x), Action::Draw(y)) => x == y,
        (Action::UartCells(x), Action::UartCells(y)) => x == y,
        (Action::DrawCells(x), Action::DrawCells(y)) => x == y,
        (Action::DrawPalette(x), Action::DrawPalette(y)) => x == y,
        (Action::Backspace, Action::Backspace) => true,
        (Action::Colors { bg: a, fg: b }, Action::Colors { bg: c, fg: d }) => a == c && b == d,
        _ => false,
    }
}

fn expect(got: &[Action], want: &[Action]) {
    assert_eq!(got.len(), want.len(), "number of actions");
    for (g, w) in got.iter().zip(want.iter()) {
        assert!(same(g, w));
    }
}

fn type_line(shell: &mut Shell, line: &str) {
    for &b in line.as_bytes() {
        let out = parsekey(shell, b as char, 0, &geo());
        expect(&out, &[Action::Uart(vec![b]), Action::Draw(vec![b])]);
    }
}

fn enter(shell: &mut Shell) -> Vec<Action> {
    parsekey(shell, '\r', 0, &geo())
}

/// The four-byte cells read at each byte of a text, bytes past it reading as zero.
fn cells(text: &[u8]) -> Vec<u32> {
    let at = |j: usize| if j < text.len() { text[j] as u32 } else { 0 };
    (0..text.len()).map(|i| at(i) + 256 * at(i + 1) + 65536 * at(i + 2) + 16777216 * at(i + 3)).collect()
}

fn with_prompt(mut v: Vec<Action>) -> Vec<Action> {
    v.push(uart("\nsgash> "));
    v.push(pal("\nsgash> "));
    v
}

#[test]
fn init_shows_banner_prompt_and_colours() {
    let (shell, out) = init(START_SCHEME);
    expect(
        &out,
        &[uart(BANNER), uart("\nsgash> "), pal("\nsgash> "), Action::Colors { bg: 0, fg: FG_COLOR1 }],
    );
    assert_eq!(shell.color_scheme, 1);
    assert_eq!(shell.prompt_buffer.len(), 0);
    assert_eq!(shell.prompt_buffer.max_length(), 256);
    assert_eq!(shell.root, Some(0));
    assert_eq!(shell.cwd, Some(0));
    assert_eq!(shell.tree.len(), 1);
    assert!(!shell.tree.has_children(0));
}

#[test]
fn typed_keys_fill_the_line() {
    let (mut shell, _) = init(START_SCHEME);
    type_line(&mut shell, "pwd");
    assert_eq!(shell.prompt_buffer.to_vec(), b"pwd".to_vec());
}

#[test]
fn keys_past_the_row_end_are_ignored() {
    let (mut shell, _) = init(START_SCHEME);
    let out = parsekey(&mut shell, 'a', 632, &geo());
    assert!(out.is_empty());
    assert_eq!(shell.prompt_buffer.len(), 0);
}

#[test]
fn delete_erases_last_character() {
    let (mut shell, _) = init(START_SCHEME);
    type_line(&mut shell, "ab");
    let out = parsekey(&mut shell, '\u{7f}', 0, &geo());
    expect(&out, &[Action::Uart(vec![8]), Action::Uart(vec![32]), Action::Uart(vec![8]), Action::Backspace]);
    assert_eq!(shell.prompt_buffer.to_vec(), b"a".to_vec());
}

#[test]
fn delete_on_empty_line_does_nothing() {
    let (mut shell, _) = init(START_SCHEME);
    let out = parsekey(&mut shell, '\u{7f}', 0, &geo());
    assert!(out.is_empty());
}

#[test]
fn enter_on_empty_line_shows_prompt() {
    let (mut shell, _) = init(START_SCHEME);
    let out = enter(&mut shell);
    expect(&out, &with_prompt(vec![]));
}

#[test]
fn ls_without_argument() {
    let (mut shell, _) = init(START_SCHEME);
    type_line(&mut shell, "ls");
    let out = enter(&mut shell);
    expect(&out, &with_prompt(vec![uart("\nListing"), pal("\nListing")]));
    assert_eq!(shell.prompt_buffer.len(), 0);
}

#[test]
fn ls_with_flags() {
    let (mut shell, _) = init(START_SCHEME);
    type_line(&mut shell, "ls -a");
    expect(&enter(&mut shell), &with_prompt(vec![uart("\nList All"), pal("\nList All")]));
    type_line(&mut shell, "ls -l");
    expect(&enter(&mut shell), &with_prompt(vec![uart("\nList Long"), pal("\nList Long")]));
    type_line(&mut shell, "ls -x");
    expect(&enter(&mut shell), &with_prompt(vec![]));
}

#[test]
fn echo_prints_quoted_text() {
    let (mut shell, _) = init(START_SCHEME);
    type_line(&mut shell, "echo \"hi there\"");
    let out = enter(&mut shell);
    let msg = "\necho echo echo echo echo...\n";
    expect(
        &out,
        &with_prompt(vec![
            uart(msg),
            pal(msg),
            Action::DrawCells(cells(b"hi there")),
            Action::UartCells(cells(b"hi there")),
            uart("\n"),
        ]),
    );
}

#[test]
fn echo_without_quotes() {
    let (mut shell, _) = init(START_SCHEME);
    type_line(&mut shell, "echo hi");
    let msg = "\necho echo echo echo echo...\n";
    expect(&enter(&mut shell), &with_prompt(vec![uart(msg), pal(msg)]));
}

#[test]
fn fixed_answers() {
    let cases: [(&str, &str); 5] = [
        ("cat", "\nmeow"),
        ("rm x", "\n Removing File"),
        ("mkdir d", "\n Creating Directory"),
        ("pwd", "\n In Dir: Root"),
        ("cd", "\nSomebody once told me the world is gunna roll me\nI ain't the sharpest tool in the shed.\nShe was looking kinda dumb with her finger and thumb\nin the shape of an L on her forehead..."),
    ];
    for (line, answer) in cases.iter() {
        let (mut shell, _) = init(START_SCHEME);
        type_line(&mut shell, line);
        expect(&enter(&mut shell), &with_prompt(vec![uart(answer), pal(answer)]));
    }
}

#[test]
fn unknown_command_is_silent() {
    let (mut shell, _) = init(START_SCHEME);
    type_line(&mut shell, "frobnicate now");
    expect(&enter(&mut shell), &with_prompt(vec![]));
}

#[test]
fn wr_names_text_and_target() {
    let (mut shell, _) = init(START_SCHEME);
    type_line(&mut shell, "wr f \"abc\"");
    expect(
        &enter(&mut shell),
        &with_prompt(vec![
            uart("\n Writing "),
            pal("\n Writing "),
            uart("\""),
            pal("\""),
            Action::UartCells(cells(b"abc")),
            Action::DrawCells(cells(b"abc")),
            uart("\""),
            pal("\""),
            uart(" to: "),
            pal(" to: "),
            Action::UartCells(cells(b"f")),
            Action::DrawCells(cells(b"f")),
        ]),
    );
}

#[test]
fn wr_with_nothing() {
    let (mut shell, _) = init(START_SCHEME);
    type_line(&mut shell, "wr");
    expect(
        &enter(&mut shell),
        &with_prompt(vec![
            uart("\n Writing "),
            pal("\n Writing "),
            uart("nothing"),
            pal("nothing"),
            uart(" to: "),
            pal(" to: "),
            uart("nil"),
            pal("nil"),
        ]),
    );
}

#[test]
fn mv_names_both_arguments() {
    let (mut shell, _) = init(START_SCHEME);
    type_line(&mut shell, "mv a b");
    expect(
        &enter(&mut shell),
        &with_prompt(vec![
            uart("\n Moving "),
            pal("\n Moving "),
            Action::UartCells(cells(b"a")),
            Action::DrawCells(cells(b"a")),
            uart(" to "),
            pal(" to "),
            Action::UartCells(cells(b"b")),
            Action::DrawCells(cells(b"b")),
        ]),
    );
    type_line(&mut shell, "mv a");
    expect(
        &enter(&mut shell),
        &with_prompt(vec![
            uart("\n Moving "),
            pal("\n Moving "),
            Action::UartCells(cells(b"a")),
            Action::DrawCells(cells(b"a")),
            uart(" to "),
            pal(" to "),
            uart("nil"),
            pal("nil"),
        ]),
    );
}

#[test]
fn setcs_switches_colour_scheme() {
    let (mut shell, _) = init(START_SCHEME);
    type_line(&mut shell, "setcs 2");
    expect(&enter(&mut shell), &with_prompt(vec![Action::Colors { bg: BG_COLOR2, fg: FG_COLOR2 }]));
    assert_eq!(shell.color_scheme, 2);
    type_line(&mut shell, "setcs 3");
    expect(&enter(&mut shell), &with_prompt(vec![Action::Colors { bg: BG_COLOR3, fg: 0 }]));
    assert_eq!(shell.color_scheme, 3);
}

#[test]
fn setcs_ignores_other_arguments() {
    let (mut shell, _) = init(START_SCHEME);
    for line in ["setcs 12", "setcs 4", "setcs"].iter() {
        type_line(&mut shell, line);
        expect(&enter(&mut shell), &with_prompt(vec![]));
        assert_eq!(shell.color_scheme, 1);
    }
}

#[test]
fn set_color_scheme_records_any_scheme() {
    let (mut shell, _) = init(START_SCHEME);
    let mut out = Vec::new();
    assert!(shell.set_color_scheme(9, &mut out));
    assert!(out.is_empty());
    assert_eq!(shell.color_scheme, 9);
}

#[test]
fn full_line_without_spaces_overruns() {
    let (mut shell, _) = init(START_SCHEME);
    for _ in 0..300 {
        parsekey(&mut shell, 'x', 0, &geo());
    }
    assert_eq!(shell.prompt_buffer.len(), 256);
    expect(
        &enter(&mut shell),
        &with_prompt(vec![uart("The Rent is too damn high\n"), uart("\nNo Args")]),
    );
}

#[test]
fn parse_empties_the_line() {
    let (mut shell, _) = init(START_SCHEME);
    type_line(&mut shell, "cat");
    let out = shell.parse();
    expect(&out, &[uart("\nmeow"), pal("\nmeow")]);
    assert_eq!(shell.prompt_buffer.len(), 0);
}

#[test]
fn init_keeps_the_scheme_in_force() {
    let (shell, out) = init(2);
    expect(
        &out,
        &[uart(BANNER), uart("\nsgash> "), pal("\nsgash> "), Action::Colors { bg: BG_COLOR2, fg: FG_COLOR2 }],
    );
    assert_eq!(shell.color_scheme, 2);
    let (shell, out) = init(7);
    expect(&out, &[uart(BANNER), uart("\nsgash> "), pal("\nsgash> ")]);
    assert_eq!(shell.color_scheme, 7);
}

#[test]
fn keys_build_the_line_as_a_stack() {
    let (mut shell, _) = init(START_SCHEME);
    for k in ['l', 's', 'x', '\u{7f}'].iter() {
        parsekey(&mut shell, *k, 0, &geo());
    }
    assert_eq!(shell.prompt_buffer.to_vec(), b"ls".to_vec());
}

#[test]
fn arguments_are_drawn_cell_by_cell() {
    let (mut shell, _) = init(START_SCHEME);
    type_line(&mut shell, "mv ab c");
    let out = enter(&mut shell);
    assert!(same(&out[2], &Action::UartCells(vec![97 + 256 * 98, 98])));
    assert!(same(&out[3], &Action::DrawCells(vec![97 + 256 * 98, 98])));
}

#[test]
fn banner_is_written_before_the_prompt() {
    let (_, out) = init(START_SCHEME);
    match &out[0] {
        Action::Uart(b) => {
            let text = String::from_utf8(b.clone()).unwrap();
            assert!(text.starts_with("\n     "));
            assert!(text.contains("\n                       7=..~$=..:7                             \n"));
            assert!(text.ends_with("|_|_|  \\____/|_| |_|  |_|   \\_\\_____)_|   |_| |_|_____)__)\n\n"));
            assert_eq!(text.matches('\n').count(), 43);
        }
        _ => panic!("the banner comes first"),
    }
}
