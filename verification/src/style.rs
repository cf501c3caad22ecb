//! An immutable, chainable builder of ANSI SGR escape codes.
//!
//! Each style-selector method returns a new builder with one more code
//! appended; the receiver is never mutated. Rendering concatenates the
//! accumulated codes in order, then the text, then exactly one reset code —
//! or returns the text unchanged when no codes were accumulated.

use vstd::prelude::*;

verus! {

/// The ANSI reset code appended once at the end of every styled rendering.
pub open spec fn reset_code() -> Seq<char> {
    "\x1b[0m"@
}

/// All accumulated codes concatenated in accumulation order.
pub open spec fn concat_codes(codes: Seq<Seq<char>>) -> Seq<char>
    decreases codes.len(),
{
    if codes.len() == 0 {
        Seq::empty()
    } else {
        concat_codes(codes.drop_last()) + codes.last()
    }
}

/// How a builder with the given codes renders a text: unchanged when no codes
/// were accumulated, otherwise every code in order, the text, then one reset.
pub open spec fn rendered(codes: Seq<Seq<char>>, text: Seq<char>) -> Seq<char> {
    if codes.len() == 0 {
        text
    } else {
        concat_codes(codes) + text + reset_code()
    }
}

/// An immutable ANSI style builder. Its view is the sequence of accumulated
/// escape codes, each as a sequence of characters, in accumulation order.
#[derive(Debug)]
pub struct Color {
    codes: Vec<&'static str>,
}

impl View for Color {
    type V = Seq<Seq<char>>;

    closed spec fn view(&self) -> Seq<Seq<char>> {
        self.codes.deep_view()
    }
}

/// Appending one code extends the concatenation by that code.
pub proof fn lemma_concat_codes_push(codes: Seq<Seq<char>>, code: Seq<char>)
    ensures
        concat_codes(codes.push(code)) == concat_codes(codes) + code,
{
    assert(codes.push(code).drop_last() =~= codes);
    assert(codes.push(code).last() == code);
}

impl Color {
    /// A builder with no accumulated codes; it renders any text unchanged.
    pub fn new() -> (c: Color)
        ensures
            c@ == Seq::<Seq<char>>::empty(),
    {
        let codes: Vec<&'static str> = Vec::new();
        assert(codes.deep_view() =~= Seq::<Seq<char>>::empty());
        Color { codes }
    }

    /// Renders `text` with the accumulated codes.
    fn apply(&self, text: &str) -> (r: String)
        ensures
            r@ == rendered(self@, text@),
    {
        if self.codes.len() == 0 {
            assert(self@.len() == 0);
            return String::from_str(text);
        }
        let mut out = String::from_str("");
        proof {
            reveal_strlit("");
            assert(out@ =~= concat_codes(self@.take(0)));
        }
        let mut i: usize = 0;
        while i < self.codes.len()
            invariant
                i <= self.codes.len(),
                out@ == concat_codes(self@.take(i as int)),
            decreases self.codes.len() - i,
        {
            out.append(self.codes[i]);
            proof {
                lemma_concat_codes_push(self@.take(i as int), self@[i as int]);
                assert(self@.take(i as int).push(self@[i as int]) =~= self@.take(i + 1 as int));
            }
            i += 1;
        }
        assert(self@.take(self.codes.len() as int) =~= self@);
        out.append(text);
        out.append("\x1b[0m");
        out
    }

    /// Returns a new builder with `code` appended; the receiver is unchanged.
    fn add_style(&self, code: &'static str) -> (c: Color)
        ensures
            c@ == self@.push(code@),
    {
        let mut codes: Vec<&'static str> = Vec::new();
        let mut i: usize = 0;
        while i < self.codes.len()
            invariant
                i <= self.codes.len(),
                codes@ == self.codes@.take(i as int),
            decreases self.codes.len() - i,
        {
            codes.push(self.codes[i]);
            assert(self.codes@.take(i as int).push(self.codes@[i as int]) =~= self.codes@.take(
                i + 1 as int,
            ));
            i += 1;
        }
        assert(codes@ =~= self.codes@);
        codes.push(code);
        let c = Color { codes };
        assert(c@ =~= self@.push(code@));
        c
    }

    pub fn bold(&self) -> (c: Color)
        ensures
            c@ == self@.push("\x1b[1m"@),
    {
        self.add_style("\x1b[1m")
    }

    pub fn dim(&self) -> (c: Color)
        ensures
            c@ == self@.push("\x1b[2m"@),
    {
        self.add_style("\x1b[2m")
    }

    pub fn italic(&self) -> (c: Color)
        ensures
            c@ == self@.push("\x1b[3m"@),
    {
        self.add_style("\x1b[3m")
    }

    pub fn underline(&self) -> (c: Color)
        ensures
            c@ == self@.push("\x1b[4m"@),
    {
        self.add_style("\x1b[4m")
    }

    pub fn blink(&self) -> (c: Color)
        ensures
            c@ == self@.push("\x1b[5m"@),
    {
        self.add_style("\x1b[5m")
    }

    pub fn invert(&self) -> (c: Color)
        ensures
            c@ == self@.push("\x1b[7m"@),
    {
        self.add_style("\x1b[7m")
    }

    pub fn fg_black(&self) -> (c: Color)
        ensures
            c@ == self@.push("\x1b[30m"@),
    {
        self.add_style("\x1b[30m")
    }

    pub fn fg_red(&self) -> (c: Color)
        ensures
            c@ == self@.push("\x1b[31m"@),
    {
        self.add_style("\x1b[31m")
    }

    pub fn fg_green(&self) -> (c: Color)
        ensures
            c@ == self@.push("\x1b[32m"@),
    {
        self.add_style("\x1b[32m")
    }

    pub fn fg_yellow(&self) -> (c: Color)
        ensures
            c@ == self@.push("\x1b[33m"@),
    {
        self.add_style("\x1b[33m")
    }

    pub fn fg_blue(&self) -> (c: Color)
        ensures
            c@ == self@.push("\x1b[34m"@),
    {
        self.add_style("\x1b[34m")
    }

    pub fn fg_magenta(&self) -> (c: Color)
        ensures
            c@ == self@.push("\x1b[35m"@),
    {
        self.add_style("\x1b[35m")
    }

    pub fn fg_cyan(&self) -> (c: Color)
        ensures
            c@ == self@.push("\x1b[36m"@),
    {
        self.add_style("\x1b[36m")
    }

    pub fn fg_white(&self) -> (c: Color)
        ensures
            c@ == self@.push("\x1b[37m"@),
    {
        self.add_style("\x1b[37m")
    }

    pub fn black(&self, text: &str) -> (r: String)
        ensures
            r@ == rendered(self@.push("\x1b[30m"@), text@),
    {
        self.fg_black().apply(text)
    }

    pub fn red(&self, text: &str) -> (r: String)
        ensures
            r@ == rendered(self@.push("\x1b[31m"@), text@),
    {
        self.fg_red().apply(text)
    }

    pub fn green(&self, text: &str) -> (r: String)
        ensures
            r@ == rendered(self@.push("\x1b[32m"@), text@),
    {
        self.fg_green().apply(text)
    }

    pub fn yellow(&self, text: &str) -> (r: String)
        ensures
            r@ == rendered(self@.push("\x1b[33m"@), text@),
    {
        self.fg_yellow().apply(text)
    }

    pub fn blue(&self, text: &str) -> (r: String)
        ensures
            r@ == rendered(self@.push("\x1b[34m"@), text@),
    {
        self.fg_blue().apply(text)
    }

    pub fn magenta(&self, text: &str) -> (r: String)
        ensures
            r@ == rendered(self@.push("\x1b[35m"@), text@),
    {
        self.fg_magenta().apply(text)
    }

    pub fn cyan(&self, text: &str) -> (r: String)
        ensures
            r@ == rendered(self@.push("\x1b[36m"@), text@),
    {
        self.fg_cyan().apply(text)
    }

    pub fn white(&self, text: &str) -> (r: String)
        ensures
            r@ == rendered(self@.push("\x1b[37m"@), text@),
    {
        self.fg_white().apply(text)
    }

    pub fn bright_black(&self, text: &str) -> (r: String)
        ensures
            r@ == rendered(self@.push("\x1b[90m"@), text@),
    {
        self.add_style("\x1b[90m").apply(text)
    }

    pub fn bright_red(&self, text: &str) -> (r: String)
        ensures
            r@ == rendered(self@.push("\x1b[91m"@), text@),
    {
        self.add_style("\x1b[91m").apply(text)
    }

    pub fn bright_green(&self, text: &str) -> (r: String)
        ensures
            r@ == rendered(self@.push("\x1b[92m"@), text@),
    {
        self.add_style("\x1b[92m").apply(text)
    }

    pub fn bright_yellow(&self, text: &str) -> (r: String)
        ensures
            r@ == rendered(self@.push("\x1b[93m"@), text@),
    {
        self.add_style("\x1b[93m").apply(text)
    }

    pub fn bright_blue(&self, text: &str) -> (r: String)
        ensures
            r@ == rendered(self@.push("\x1b[94m"@), text@),
    {
        self.add_style("\x1b[94m").apply(text)
    }

    pub fn bright_magenta(&self, text: &str) -> (r: String)
        ensures
            r@ == rendered(self@.push("\x1b[95m"@), text@),
    {
        self.add_style("\x1b[95m").apply(text)
    }

    pub fn bright_cyan(&self, text: &str) -> (r: String)
        ensures
            r@ == rendered(self@.push("\x1b[96m"@), text@),
    {
        self.add_style("\x1b[96m").apply(text)
    }

    pub fn bright_white(&self, text: &str) -> (r: String)
        ensures
            r@ == rendered(self@.push("\x1b[97m"@), text@),
    {
        self.add_style("\x1b[97m").apply(text)
    }

    pub fn bg_black(&self) -> (c: Color)
        ensures
            c@ == self@.push("\x1b[40m"@),
    {
        self.add_style("\x1b[40m")
    }

    pub fn bg_red(&self) -> (c: Color)
        ensures
            c@ == self@.push("\x1b[41m"@),
    {
        self.add_style("\x1b[41m")
    }

    pub fn bg_green(&self) -> (c: Color)
        ensures
            c@ == self@.push("\x1b[42m"@),
    {
        self.add_style("\x1b[42m")
    }

    pub fn bg_yellow(&self) -> (c: Color)
        ensures
            c@ == self@.push("\x1b[43m"@),
    {
        self.add_style("\x1b[43m")
    }

    pub fn bg_blue(&self) -> (c: Color)
        ensures
            c@ == self@.push("\x1b[44m"@),
    {
        self.add_style("\x1b[44m")
    }

    pub fn bg_magenta(&self) -> (c: Color)
        ensures
            c@ == self@.push("\x1b[45m"@),
    {
        self.add_style("\x1b[45m")
    }

    pub fn bg_cyan(&self) -> (c: Color)
        ensures
            c@ == self@.push("\x1b[46m"@),
    {
        self.add_style("\x1b[46m")
    }

    pub fn bg_white(&self) -> (c: Color)
        ensures
            c@ == self@.push("\x1b[47m"@),
    {
        self.add_style("\x1b[47m")
    }

    /// Renders `text` with the accumulated codes: unchanged when none were
    /// accumulated, else each code in order, the text, and one reset code.
    pub fn paint(&self, text: &str) -> (r: String)
        ensures
            r@ == rendered(self@, text@),
    {
        self.apply(text)
    }
}

/// A builder with no accumulated codes renders any text unchanged: no escape
/// sequences and no reset code.
pub proof fn lemma_empty_builder_paints_unchanged(text: Seq<char>)
    ensures
        rendered(Seq::<Seq<char>>::empty(), text) == text,
{
}

/// Chaining order is preserved: rendering after appending `a` and then `b`
/// places `a` before `b`, both before the text, with one reset at the end.
pub proof fn lemma_chain_order_preserved(
    codes: Seq<Seq<char>>,
    a: Seq<char>,
    b: Seq<char>,
    text: Seq<char>,
)
    ensures
        rendered(codes.push(a).push(b), text) == concat_codes(codes) + a + b + text
            + reset_code(),
{
    lemma_concat_codes_push(codes.push(a), b);
    lemma_concat_codes_push(codes, a);
    assert(rendered(codes.push(a).push(b), text) =~= concat_codes(codes) + a + b + text
        + reset_code());
}

/// Codes are never deduplicated: appending the same code twice renders it
/// twice, in accumulation order, before the text.
pub proof fn lemma_codes_not_deduplicated(codes: Seq<Seq<char>>, code: Seq<char>, text: Seq<char>)
    ensures
        rendered(codes.push(code).push(code), text) == concat_codes(codes) + code + code + text
            + reset_code(),
{
    lemma_chain_order_preserved(codes, code, code, text);
}

} // verus!
