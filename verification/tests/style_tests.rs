use simpleargumentsparser::Color;

#[test]
fn no_codes_leaves_text_unchanged() {
    assert_eq!(Color::new().paint("x"), "x");
    assert_eq!(Color::new().paint(""), "");
}

#[test]
fn bold_wraps_text_with_reset() {
    assert_eq!(Color::new().bold().paint("x"), "\x1b[1mx\x1b[0m");
}

#[test]
fn chaining_order_is_preserved() {
    assert_eq!(Color::new().bold().fg_red().paint("x"), "\x1b[1m\x1b[31mx\x1b[0m");
    assert_eq!(Color::new().fg_red().bold().paint("x"), "\x1b[31m\x1b[1mx\x1b[0m");
}

#[test]
fn repeated_styles_are_not_deduplicated() {
    assert_eq!(Color::new().bold().bold().paint("x"), "\x1b[1m\x1b[1mx\x1b[0m");
}

#[test]
fn builder_is_immutable() {
    let base = Color::new().bold();
    let with_red = base.fg_red();
    // The original builder still renders only the bold code.
    assert_eq!(base.paint("x"), "\x1b[1mx\x1b[0m");
    assert_eq!(with_red.paint("x"), "\x1b[1m\x1b[31mx\x1b[0m");
}

#[test]
fn style_selector_codes() {
    assert_eq!(Color::new().dim().paint("x"), "\x1b[2mx\x1b[0m");
    assert_eq!(Color::new().italic().paint("x"), "\x1b[3mx\x1b[0m");
    assert_eq!(Color::new().underline().paint("x"), "\x1b[4mx\x1b[0m");
    assert_eq!(Color::new().blink().paint("x"), "\x1b[5mx\x1b[0m");
    assert_eq!(Color::new().invert().paint("x"), "\x1b[7mx\x1b[0m");
}

#[test]
fn foreground_selector_codes() {
    assert_eq!(Color::new().fg_black().paint("x"), "\x1b[30mx\x1b[0m");
    assert_eq!(Color::new().fg_red().paint("x"), "\x1b[31mx\x1b[0m");
    assert_eq!(Color::new().fg_green().paint("x"), "\x1b[32mx\x1b[0m");
    assert_eq!(Color::new().fg_yellow().paint("x"), "\x1b[33mx\x1b[0m");
    assert_eq!(Color::new().fg_blue().paint("x"), "\x1b[34mx\x1b[0m");
    assert_eq!(Color::new().fg_magenta().paint("x"), "\x1b[35mx\x1b[0m");
    assert_eq!(Color::new().fg_cyan().paint("x"), "\x1b[36mx\x1b[0m");
    assert_eq!(Color::new().fg_white().paint("x"), "\x1b[37mx\x1b[0m");
}

#[test]
fn terminal_foreground_methods() {
    let c = Color::new();
    assert_eq!(c.black("x"), "\x1b[30mx\x1b[0m");
    assert_eq!(c.red("x"), "\x1b[31mx\x1b[0m");
    assert_eq!(c.green("x"), "\x1b[32mx\x1b[0m");
    assert_eq!(c.yellow("x"), "\x1b[33mx\x1b[0m");
    assert_eq!(c.blue("x"), "\x1b[34mx\x1b[0m");
    assert_eq!(c.magenta("x"), "\x1b[35mx\x1b[0m");
    assert_eq!(c.cyan("x"), "\x1b[36mx\x1b[0m");
    assert_eq!(c.white("x"), "\x1b[37mx\x1b[0m");
}

#[test]
fn bright_foreground_methods() {
    let c = Color::new();
    assert_eq!(c.bright_black("x"), "\x1b[90mx\x1b[0m");
    assert_eq!(c.bright_red("x"), "\x1b[91mx\x1b[0m");
    assert_eq!(c.bright_green("x"), "\x1b[92mx\x1b[0m");
    assert_eq!(c.bright_yellow("x"), "\x1b[93mx\x1b[0m");
    assert_eq!(c.bright_blue("x"), "\x1b[94mx\x1b[0m");
    assert_eq!(c.bright_magenta("x"), "\x1b[95mx\x1b[0m");
    assert_eq!(c.bright_cyan("x"), "\x1b[96mx\x1b[0m");
    assert_eq!(c.bright_white("x"), "\x1b[97mx\x1b[0m");
}

#[test]
fn background_selector_codes() {
    assert_eq!(Color::new().bg_black().paint("x"), "\x1b[40mx\x1b[0m");
    assert_eq!(Color::new().bg_red().paint("x"), "\x1b[41mx\x1b[0m");
    assert_eq!(Color::new().bg_green().paint("x"), "\x1b[42mx\x1b[0m");
    assert_eq!(Color::new().bg_yellow().paint("x"), "\x1b[43mx\x1b[0m");
    assert_eq!(Color::new().bg_blue().paint("x"), "\x1b[44mx\x1b[0m");
    assert_eq!(Color::new().bg_magenta().paint("x"), "\x1b[45mx\x1b[0m");
    assert_eq!(Color::new().bg_cyan().paint("x"), "\x1b[46mx\x1b[0m");
    assert_eq!(Color::new().bg_white().paint("x"), "\x1b[47mx\x1b[0m");
}

#[test]
fn terminal_methods_stack_on_selectors() {
    assert_eq!(Color::new().bold().red("x"), "\x1b[1m\x1b[31mx\x1b[0m");
    assert_eq!(Color::new().bg_blue().bright_white("x"), "\x1b[44m\x1b[97mx\x1b[0m");
}

#[test]
fn fresh_builder_from_tokenizer_is_plain() {
    let r = simpleargumentsparser::tokenize(Vec::new(), None);
    assert_eq!(r.color.paint("x"), "x");
}
