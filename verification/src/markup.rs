//! A small markup of its own: a text is cut into tokens, the tokens are
//! read as expressions, and the expressions are written as HTML.
//!
//! The three steps give nothing where the text, the tokens or the
//! expressions are of a form that they do not take.

use crate::text::{
    append, chars_of, find_from, first_match, same_chars, slice_of, string_of, trim, trimmed,
};
use vstd::prelude::*;

verus! {

/// One token of a text.
#[derive(Debug, PartialEq, Eq)]
pub enum Token {
    /// A heading of the given level.
    Heading(u8),
    Italic,
    Bold,
    Strikethrough,
    BackTick,
    CodeBlock,
    BlockQuote,
    OpenBracket,
    CloseBracket,
    OpenParentheses,
    CloseParentheses,
    NewLine,
    CarriageReturn,
    /// A run of text.
    String(String),
    Tab,
    TemplateStart,
    TemplateEnd,
    CommentStart,
    CommentEnd,
    Tag,
    Equal,
    ShortcodeStart,
    ShortcodeEnd,
    Plus,
}

/// The mathematical value of a `Token`.
pub enum TokenView {
    Heading(u8),
    Italic,
    Bold,
    Strikethrough,
    BackTick,
    CodeBlock,
    BlockQuote,
    OpenBracket,
    CloseBracket,
    OpenParentheses,
    CloseParentheses,
    NewLine,
    CarriageReturn,
    String(Seq<char>),
    Tab,
    TemplateStart,
    TemplateEnd,
    CommentStart,
    CommentEnd,
    Tag,
    Equal,
    ShortcodeStart,
    ShortcodeEnd,
    Plus,
}

impl View for Token {
    type V = TokenView;

    open spec fn view(&self) -> TokenView {
        match self {
            Token::Heading(level) => TokenView::Heading(*level),
            Token::Italic => TokenView::Italic,
            Token::Bold => TokenView::Bold,
            Token::Strikethrough => TokenView::Strikethrough,
            Token::BackTick => TokenView::BackTick,
            Token::CodeBlock => TokenView::CodeBlock,
            Token::BlockQuote => TokenView::BlockQuote,
            Token::OpenBracket => TokenView::OpenBracket,
            Token::CloseBracket => TokenView::CloseBracket,
            Token::OpenParentheses => TokenView::OpenParentheses,
            Token::CloseParentheses => TokenView::CloseParentheses,
            Token::NewLine => TokenView::NewLine,
            Token::CarriageReturn => TokenView::CarriageReturn,
            Token::String(text) => TokenView::String(text@),
            Token::Tab => TokenView::Tab,
            Token::TemplateStart => TokenView::TemplateStart,
            Token::TemplateEnd => TokenView::TemplateEnd,
            Token::CommentStart => TokenView::CommentStart,
            Token::CommentEnd => TokenView::CommentEnd,
            Token::Tag => TokenView::Tag,
            Token::Equal => TokenView::Equal,
            Token::ShortcodeStart => TokenView::ShortcodeStart,
            Token::ShortcodeEnd => TokenView::ShortcodeEnd,
            Token::Plus => TokenView::Plus,
        }
    }
}

/// The values of the tokens `tokens`, in their order.
pub open spec fn token_views(tokens: Seq<Token>) -> Seq<TokenView> {
    tokens.map_values(|t: Token| t@)
}

/// The text that a token stands for. A heading stands for no text of its
/// own.
pub open spec fn token_text(token: TokenView) -> Seq<char> {
    match token {
        TokenView::Heading(_) => Seq::empty(),
        TokenView::Plus => "+++"@,
        TokenView::Italic => "*"@,
        TokenView::Bold => "**"@,
        TokenView::Strikethrough => "~~"@,
        TokenView::BackTick => "`"@,
        TokenView::CodeBlock => "```"@,
        TokenView::BlockQuote => ">"@,
        TokenView::OpenBracket => "["@,
        TokenView::CloseBracket => "]"@,
        TokenView::OpenParentheses => "("@,
        TokenView::CloseParentheses => ")"@,
        TokenView::NewLine => "\n"@,
        TokenView::CarriageReturn => "\r"@,
        TokenView::String(text) => text,
        TokenView::Tab => "\t"@,
        TokenView::TemplateStart => "{{"@,
        TokenView::TemplateEnd => "}}"@,
        TokenView::CommentStart => "<!-- "@,
        TokenView::CommentEnd => "-->"@,
        TokenView::Tag => "+++"@,
        TokenView::Equal => "="@,
        TokenView::ShortcodeStart => "{%"@,
        TokenView::ShortcodeEnd => "%}"@,
    }
}

impl Token {
    /// The text that the token stands for.
    pub fn to_string(&self) -> (text: String)
        requires
            !(self is Heading),
        ensures
            text@ == token_text(self@),
    {
        match self {
            Token::Heading(_) => String::new(),
            Token::Plus => "+++".to_owned(),
            Token::Italic => "*".to_owned(),
            Token::Bold => "**".to_owned(),
            Token::Strikethrough => "~~".to_owned(),
            Token::BackTick => "`".to_owned(),
            Token::CodeBlock => "```".to_owned(),
            Token::BlockQuote => ">".to_owned(),
            Token::OpenBracket => "[".to_owned(),
            Token::CloseBracket => "]".to_owned(),
            Token::OpenParentheses => "(".to_owned(),
            Token::CloseParentheses => ")".to_owned(),
            Token::NewLine => "\n".to_owned(),
            Token::CarriageReturn => "\r".to_owned(),
            Token::String(text) => text.clone(),
            Token::Tab => "\t".to_owned(),
            Token::TemplateStart => "{{".to_owned(),
            Token::TemplateEnd => "}}".to_owned(),
            Token::CommentStart => "<!-- ".to_owned(),
            Token::CommentEnd => "-->".to_owned(),
            Token::Tag => "+++".to_owned(),
            Token::Equal => "=".to_owned(),
            Token::ShortcodeStart => "{%".to_owned(),
            Token::ShortcodeEnd => "%}".to_owned(),
        }
    }
}

/// What one step of the cutting finds at a position of the text.
pub enum Step {
    /// A token that takes so many characters and leaves the run of text
    /// open.
    Quiet(TokenView, int),
    /// A token that takes so many characters and ends the run of text.
    Mark(TokenView, int),
    /// A character that stands for nothing and ends the run of text.
    Skip,
    /// A character of a run of text.
    Text(char),
    /// A heading of a level beyond six.
    Fail,
}

/// The character at position `i` of `chars`, if there is one.
pub open spec fn char_at(chars: Seq<char>, i: int) -> Option<char> {
    if 0 <= i < chars.len() {
        Some(chars[i])
    } else {
        None
    }
}

/// The number of `#` that stand one after the other from position `i` on.
pub open spec fn hashes_from(chars: Seq<char>, i: int) -> nat
    decreases chars.len() - i,
{
    if 0 <= i < chars.len() && chars[i] == '#' {
        1 + hashes_from(chars, i + 1)
    } else {
        0
    }
}

/// What stands at position `i` of `chars`, where `text_empty` says that no
/// run of text is open and `start` that a line starts here. The longer
/// symbol goes before the shorter; a `#` makes a heading only at the start
/// of a line, of the level that the number of `#` gives, and takes one
/// character more; a blank outside a run of text, and a `+`, `{` or `}`
/// that starts no symbol, stand for nothing.
pub open spec fn step_at(chars: Seq<char>, i: int, text_empty: bool, start: bool) -> Step {
    let c = chars[i];
    let c1 = char_at(chars, i + 1);
    let c2 = char_at(chars, i + 2);
    let c3 = char_at(chars, i + 3);
    if c == '<' && c1 == Some('!') && c2 == Some('-') && c3 == Some('-') {
        Step::Quiet(TokenView::CommentStart, 4)
    } else if c == '-' && c1 == Some('-') && c2 == Some('>') {
        Step::Quiet(TokenView::CommentEnd, 3)
    } else if c == '+' {
        if c1 == Some('+') && c2 == Some('+') {
            Step::Mark(TokenView::Plus, 3)
        } else {
            Step::Skip
        }
    } else if c == '{' {
        if c1 == Some('{') {
            Step::Mark(TokenView::TemplateStart, 2)
        } else if c1 == Some('%') {
            Step::Mark(TokenView::ShortcodeStart, 2)
        } else {
            Step::Skip
        }
    } else if c == '%' && c1 == Some('}') {
        Step::Mark(TokenView::ShortcodeEnd, 2)
    } else if c == '}' {
        if c1 == Some('}') {
            Step::Mark(TokenView::TemplateEnd, 2)
        } else {
            Step::Skip
        }
    } else if c == '#' && start {
        let level = 1 + hashes_from(chars, i + 1);
        if level > 6 {
            Step::Fail
        } else {
            Step::Mark(TokenView::Heading(level as u8), 1 + level as int)
        }
    } else if c == '>' {
        Step::Mark(TokenView::BlockQuote, 1)
    } else if c == '`' {
        if c1 == Some('`') && c2 == Some('`') {
            Step::Quiet(TokenView::CodeBlock, 3)
        } else {
            Step::Mark(TokenView::BackTick, 1)
        }
    } else if c == '*' {
        if c1 == Some('*') {
            Step::Mark(TokenView::Bold, 2)
        } else {
            Step::Mark(TokenView::Italic, 1)
        }
    } else if c == '\n' {
        Step::Mark(TokenView::NewLine, 1)
    } else if c == '\r' {
        Step::Mark(TokenView::CarriageReturn, 1)
    } else if c == '\t' {
        Step::Mark(TokenView::Tab, 1)
    } else if c == '[' {
        Step::Mark(TokenView::OpenBracket, 1)
    } else if c == ']' {
        Step::Mark(TokenView::CloseBracket, 1)
    } else if c == '(' {
        Step::Mark(TokenView::OpenParentheses, 1)
    } else if c == ')' {
        Step::Mark(TokenView::CloseParentheses, 1)
    } else if c == '~' && c1 == Some('~') {
        Step::Mark(TokenView::Strikethrough, 2)
    } else if c == '=' {
        Step::Mark(TokenView::Equal, 1)
    } else if c == ' ' && text_empty {
        Step::Skip
    } else {
        Step::Text(c)
    }
}

/// The tokens with the open run of text put in before the last of them.
/// Nothing where there is a run of text and no token to put it before.
pub open spec fn flushed(tokens: Seq<TokenView>, text: Seq<char>) -> Option<Seq<TokenView>> {
    if text.len() == 0 {
        Some(tokens)
    } else if tokens.len() == 0 {
        None
    } else {
        Some(tokens.insert(tokens.len() - 1, TokenView::String(text)))
    }
}

/// The position `width` characters after `i`, or the end of `chars` where
/// that comes first.
pub open spec fn after(chars: Seq<char>, i: int, width: int) -> int {
    if i + width <= chars.len() {
        i + width
    } else {
        chars.len() as int
    }
}

/// The tokens of `chars` from position `i` on, after `tokens`, with the
/// open run of text `text`.
pub open spec fn lexed_from(
    chars: Seq<char>,
    i: int,
    tokens: Seq<TokenView>,
    text: Seq<char>,
    start: bool,
) -> Option<Seq<TokenView>>
    decreases chars.len() - i,
{
    if i < 0 || i >= chars.len() {
        Some(
            if text.len() > 0 {
                tokens.push(TokenView::String(text))
            } else {
                tokens
            },
        )
    } else {
        match step_at(chars, i, text.len() == 0, start) {
            Step::Quiet(token, width) => if width >= 1 {
                lexed_from(chars, after(chars, i, width), tokens.push(token), text, start)
            } else {
                None
            },
            Step::Mark(token, width) => if width >= 1 {
                lexed_from(
                    chars,
                    after(chars, i, width),
                    if text.len() > 0 {
                        tokens.push(TokenView::String(text)).push(token)
                    } else {
                        tokens.push(token)
                    },
                    Seq::empty(),
                    chars[i] == '\n',
                )
            } else {
                None
            },
            Step::Skip => match flushed(tokens, text) {
                Some(kept) => lexed_from(chars, i + 1, kept, Seq::empty(), false),
                None => None,
            },
            Step::Text(c) => lexed_from(chars, i + 1, tokens, text.push(c), false),
            Step::Fail => None,
        }
    }
}

/// The tokens of a text: nothing where a line starts with more than six
/// `#`, or where a character that stands for nothing ends a run of text
/// before any token.
pub open spec fn tokens_of(chars: Seq<char>) -> Option<Seq<TokenView>> {
    lexed_from(chars, 0, Seq::empty(), Seq::empty(), true)
}

/// What one step of the cutting finds, with the token as it is made.
enum Found {
    Quiet(Token, usize),
    Mark(Token, usize),
    Skip,
    Text(char),
    Fail,
}

impl Found {
    spec fn step(&self) -> Step {
        match self {
            Found::Quiet(token, width) => Step::Quiet(token@, *width as int),
            Found::Mark(token, width) => Step::Mark(token@, *width as int),
            Found::Skip => Step::Skip,
            Found::Text(c) => Step::Text(*c),
            Found::Fail => Step::Fail,
        }
    }
}

/// Whether `c` stands `offset` characters after position `i`.
fn is_at(chars: &Vec<char>, i: usize, offset: usize, c: char) -> (found: bool)
    requires
        i < chars.len(),
        offset <= 3,
    ensures
        found == (char_at(chars@, i + offset) == Some(c)),
{
    offset < chars.len() - i && chars[i + offset] == c
}

/// The number of `#` that stand one after the other from `from` on.
fn count_hashes(chars: &Vec<char>, from: usize) -> (count: usize)
    requires
        from <= chars.len(),
    ensures
        count == hashes_from(chars@, from as int),
        from + count <= chars.len(),
{
    let mut i: usize = from;
    while i < chars.len() && chars[i] == '#'
        invariant
            from <= i <= chars.len(),
            hashes_from(chars@, from as int) == (i - from) + hashes_from(chars@, i as int),
        decreases chars.len() - i,
    {
        i += 1;
    }
    i - from
}

/// Finds what stands at position `i`.
fn find_step(chars: &Vec<char>, i: usize, text_empty: bool, start: bool) -> (found: Found)
    requires
        i < chars.len(),
    ensures
        found.step() == step_at(chars@, i as int, text_empty, start),
        found matches Found::Quiet(_, width) ==> 1 <= width && i + width <= chars.len(),
        found matches Found::Mark(_, width) ==> 1 <= width <= 7,
{
    let c: char = chars[i];
    if c == '<' && is_at(chars, i, 1, '!') && is_at(chars, i, 2, '-') && is_at(chars, i, 3, '-') {
        Found::Quiet(Token::CommentStart, 4)
    } else if c == '-' && is_at(chars, i, 1, '-') && is_at(chars, i, 2, '>') {
        Found::Quiet(Token::CommentEnd, 3)
    } else if c == '+' {
        if is_at(chars, i, 1, '+') && is_at(chars, i, 2, '+') {
            Found::Mark(Token::Plus, 3)
        } else {
            Found::Skip
        }
    } else if c == '{' {
        if is_at(chars, i, 1, '{') {
            Found::Mark(Token::TemplateStart, 2)
        } else if is_at(chars, i, 1, '%') {
            Found::Mark(Token::ShortcodeStart, 2)
        } else {
            Found::Skip
        }
    } else if c == '%' && is_at(chars, i, 1, '}') {
        Found::Mark(Token::ShortcodeEnd, 2)
    } else if c == '}' {
        if is_at(chars, i, 1, '}') {
            Found::Mark(Token::TemplateEnd, 2)
        } else {
            Found::Skip
        }
    } else if c == '#' && start {
        let more: usize = count_hashes(chars, i + 1);
        if more >= 6 {
            Found::Fail
        } else {
            Found::Mark(Token::Heading((more + 1) as u8), more + 2)
        }
    } else if c == '>' {
        Found::Mark(Token::BlockQuote, 1)
    } else if c == '`' {
        if is_at(chars, i, 1, '`') && is_at(chars, i, 2, '`') {
            Found::Quiet(Token::CodeBlock, 3)
        } else {
            Found::Mark(Token::BackTick, 1)
        }
    } else if c == '*' {
        if is_at(chars, i, 1, '*') {
            Found::Mark(Token::Bold, 2)
        } else {
            Found::Mark(Token::Italic, 1)
        }
    } else if c == '\n' {
        Found::Mark(Token::NewLine, 1)
    } else if c == '\r' {
        Found::Mark(Token::CarriageReturn, 1)
    } else if c == '\t' {
        Found::Mark(Token::Tab, 1)
    } else if c == '[' {
        Found::Mark(Token::OpenBracket, 1)
    } else if c == ']' {
        Found::Mark(Token::CloseBracket, 1)
    } else if c == '(' {
        Found::Mark(Token::OpenParentheses, 1)
    } else if c == ')' {
        Found::Mark(Token::CloseParentheses, 1)
    } else if c == '~' && is_at(chars, i, 1, '~') {
        Found::Mark(Token::Strikethrough, 2)
    } else if c == '=' {
        Found::Mark(Token::Equal, 1)
    } else if c == ' ' && text_empty {
        Found::Skip
    } else {
        Found::Text(c)
    }
}

/// Cuts a text into tokens.
pub fn generate_tokens(markdown: &str) -> (made: Option<Vec<Token>>)
    ensures
        match made {
            Some(tokens) => tokens_of(markdown@) == Some(token_views(tokens@)),
            None => tokens_of(markdown@) is None,
        },
{
    let chars = chars_of(markdown);
    let mut tokens: Vec<Token> = Vec::new();
    let mut text: Vec<char> = Vec::new();
    let mut start = true;
    let mut i: usize = 0;
    assert(token_views(tokens@) == Seq::<TokenView>::empty());
    while i < chars.len()
        invariant
            i <= chars.len(),
            chars@ == markdown@,
            tokens_of(chars@) == lexed_from(chars@, i as int, token_views(tokens@), text@, start),
        decreases chars.len() - i,
    {
        let ghost before = token_views(tokens@);
        match find_step(&chars, i, text.len() == 0, start) {
            Found::Quiet(token, width) => {
                let ghost value = token@;
                tokens.push(token);
                assert(token_views(tokens@) == before.push(value));
                i += width;
            },
            Found::Mark(token, width) => {
                let ghost value = token@;
                if text.len() > 0 {
                    tokens.push(Token::String(string_of(&text)));
                    tokens.push(token);
                    assert(token_views(tokens@) == before.push(TokenView::String(text@)).push(
                        value,
                    ));
                    text = Vec::new();
                } else {
                    tokens.push(token);
                    assert(token_views(tokens@) == before.push(value));
                    assert(text@ == Seq::<char>::empty());
                }
                start = chars[i] == '\n';
                i = if width < chars.len() - i {
                    i + width
                } else {
                    chars.len()
                };
            },
            Found::Skip => {
                if text.len() > 0 {
                    if tokens.len() == 0 {
                        return None;
                    }
                    tokens.insert(tokens.len() - 1, Token::String(string_of(&text)));
                    assert(token_views(tokens@) == before.insert(
                        before.len() - 1,
                        TokenView::String(text@),
                    ));
                    text = Vec::new();
                } else {
                    assert(text@ == Seq::<char>::empty());
                }
                start = false;
                i += 1;
            },
            Found::Text(c) => {
                text.push(c);
                start = false;
                i += 1;
            },
            Found::Fail => {
                return None;
            },
        }
    }
    if text.len() > 0 {
        let ghost before = token_views(tokens@);
        tokens.push(Token::String(string_of(&text)));
        assert(token_views(tokens@) == before.push(TokenView::String(text@)));
    }
    Some(tokens)
}

/// One expression of a text.
#[derive(Debug, PartialEq, Eq)]
pub enum Expr {
    /// Level, text.
    Heading(u8, String),
    /// Level, text.
    BlockQuote(u8, String),
    Bold(String),
    Italic(String),
    OrderedList(Vec<String>),
    /// Title, link.
    Link(String, String),
    Text(String),
    Strikethrough(String),
    CodeBlock(Vec<String>),
    Code(String),
    HorizontalRule,
    Template(String),
    Variable(String),
}

/// The mathematical value of an `Expr`.
pub enum ExprView {
    Heading(u8, Seq<char>),
    BlockQuote(u8, Seq<char>),
    Bold(Seq<char>),
    Italic(Seq<char>),
    OrderedList(Seq<Seq<char>>),
    Link(Seq<char>, Seq<char>),
    Text(Seq<char>),
    Strikethrough(Seq<char>),
    CodeBlock(Seq<Seq<char>>),
    Code(Seq<char>),
    HorizontalRule,
    Template(Seq<char>),
    Variable(Seq<char>),
}

/// The texts of the strings `strings`, in their order.
pub open spec fn lines_of(strings: Seq<String>) -> Seq<Seq<char>> {
    strings.map_values(|s: String| s@)
}

impl View for Expr {
    type V = ExprView;

    open spec fn view(&self) -> ExprView {
        match self {
            Expr::Heading(level, text) => ExprView::Heading(*level, text@),
            Expr::BlockQuote(level, text) => ExprView::BlockQuote(*level, text@),
            Expr::Bold(text) => ExprView::Bold(text@),
            Expr::Italic(text) => ExprView::Italic(text@),
            Expr::OrderedList(items) => ExprView::OrderedList(lines_of(items@)),
            Expr::Link(title, link) => ExprView::Link(title@, link@),
            Expr::Text(text) => ExprView::Text(text@),
            Expr::Strikethrough(text) => ExprView::Strikethrough(text@),
            Expr::CodeBlock(lines) => ExprView::CodeBlock(lines_of(lines@)),
            Expr::Code(text) => ExprView::Code(text@),
            Expr::HorizontalRule => ExprView::HorizontalRule,
            Expr::Template(text) => ExprView::Template(text@),
            Expr::Variable(name) => ExprView::Variable(name@),
        }
    }
}

/// The values of the expressions `ast`, in their order.
pub open spec fn expr_views(ast: Seq<Expr>) -> Seq<ExprView> {
    ast.map_values(|e: Expr| e@)
}

/// Whether `char::is_numeric` holds of `c`: the Unicode categories of the
/// numbers.
pub uninterp spec fn numeric(c: char) -> bool;

/// Calls `char::is_numeric`, which depends on the character alone.
#[verifier::external_body]
fn is_numeric(c: char) -> (is: bool)
    ensures
        is == numeric(c),
{
    c.is_numeric()
}

/// What a run of text is as an entry of an ordered list.
pub enum Item {
    /// An entry with its text.
    Entry(Seq<char>),
    /// No entry.
    Plain,
    /// A number and a `.` that no blank follows anywhere in the text.
    Broken,
}

/// Reads `s` from position `k` on as the rest of the number of an entry:
/// numeric characters up to a `.`. With the `.`, the entry is what follows
/// the first `. ` of the text.
pub open spec fn item_from(s: Seq<char>, k: int) -> Item
    decreases s.len() - k,
{
    if k < 0 || k >= s.len() {
        Item::Plain
    } else if s[k] == '.' {
        match first_match(s, ". "@, 0) {
            Some(at) => Item::Entry(s.skip(at + 2)),
            None => Item::Broken,
        }
    } else if !numeric(s[k]) {
        Item::Plain
    } else {
        item_from(s, k + 1)
    }
}

/// What the run of text `s` is as an entry of an ordered list. Its first
/// character is passed over.
pub open spec fn item_of(s: Seq<char>) -> Item {
    item_from(s, 1)
}

/// What a run of text is as an entry of an ordered list, as `list_item`
/// finds it.
#[derive(Debug, PartialEq, Eq)]
pub enum ListItem {
    Entry(String),
    Plain,
    Broken,
}

impl View for ListItem {
    type V = Item;

    open spec fn view(&self) -> Item {
        match self {
            ListItem::Entry(text) => Item::Entry(text@),
            ListItem::Plain => Item::Plain,
            ListItem::Broken => Item::Broken,
        }
    }
}

/// Reads a run of text as an entry of an ordered list: `1. text`.
pub fn list_item(string: &str) -> (item: ListItem)
    ensures
        item@ == item_of(string@),
{
    let chars = chars_of(string);
    let mut k: usize = 1;
    while k < chars.len()
        invariant
            1 <= k,
            chars@ == string@,
            item_of(string@) == item_from(chars@, k as int),
        decreases chars.len() - k,
    {
        if chars[k] == '.' {
            proof {
                reveal_strlit(". ");
            }
            return match find_from(&chars, &chars_of(". "), 0) {
                Some(at) => ListItem::Entry(string_of(&slice_of(&chars, at + 2, chars.len()))),
                None => ListItem::Broken,
            };
        }
        if !is_numeric(chars[k]) {
            return ListItem::Plain;
        }
        k += 1;
    }
    ListItem::Plain
}

/// What reading one expression gives.
pub enum Parsed {
    /// An expression, and the position of the token to go on with.
    Made(ExprView, int),
    /// No expression, and the position of the token to go on with.
    Nothing(int),
    /// The tokens are of a form that the reading does not take.
    Broken,
}

/// The token at position `i` of `tokens`, if there is one.
pub open spec fn token_at(tokens: Seq<TokenView>, i: int) -> Option<TokenView> {
    if 0 <= i < tokens.len() {
        Some(tokens[i])
    } else {
        None
    }
}

/// The position `n` tokens after `i`, or the end of `tokens` where that
/// comes first.
pub open spec fn skipped(tokens: Seq<TokenView>, i: int, n: int) -> int {
    if i + n <= tokens.len() {
        i + n
    } else {
        tokens.len() as int
    }
}

/// The text kept for `key` in `table`, by the first entry that has it.
pub open spec fn looked_up(table: Seq<(Seq<char>, Seq<char>)>, key: Seq<char>) -> Option<Seq<char>>
    decreases table.len(),
{
    if table.len() == 0 {
        None
    } else if table[0].0 == key {
        Some(table[0].1)
    } else {
        looked_up(table.drop_first(), key)
    }
}

/// The text that stands for the template named `name`: the text of the
/// file `templates/name.html` among `templates`, or a comment that says
/// that there is no such file.
pub open spec fn template_text(templates: Seq<(Seq<char>, Seq<char>)>, name: Seq<char>) -> Seq<
    char,
> {
    match looked_up(templates, "templates/"@ + name + ".html"@) {
        Some(text) => text,
        None => "<!-- TEMPLATE FILE '"@ + name + ".html' DOES NOT EXIST! -->"@,
    }
}

/// A link after its `[`, which stands before position `j`: an optional
/// title, `](`, an optional link, and `)`.
pub open spec fn link_at(tokens: Seq<TokenView>, j: int) -> Parsed {
    let titled = token_at(tokens, j) is Some && token_at(tokens, j)->0 is String;
    let title = if titled {
        token_at(tokens, j)->0->String_0
    } else {
        Seq::empty()
    };
    let a = if titled {
        j + 1
    } else {
        j
    };
    if token_at(tokens, a) == Some(TokenView::CloseBracket) && token_at(tokens, a + 1) == Some(
        TokenView::OpenParentheses,
    ) {
        let linked = token_at(tokens, a + 2) is Some && token_at(tokens, a + 2)->0 is String;
        let link = if linked {
            token_at(tokens, a + 2)->0->String_0
        } else {
            Seq::empty()
        };
        let b = if linked {
            a + 3
        } else {
            a + 2
        };
        if token_at(tokens, b) == Some(TokenView::CloseParentheses) {
            Parsed::Made(
                ExprView::Link(title, link),
                skipped(
                    tokens,
                    j,
                    if title.len() > 0 {
                        7
                    } else {
                        3
                    },
                ),
            )
        } else {
            Parsed::Nothing(j)
        }
    } else {
        Parsed::Nothing(j)
    }
}

/// A block quote from position `j` on, with `level` marks read so far:
/// further marks, and then its text.
pub open spec fn quote_at(tokens: Seq<TokenView>, j: int, level: int) -> Parsed
    decreases tokens.len() - j,
{
    match token_at(tokens, j) {
        Some(TokenView::BlockQuote) => if level < 255 {
            quote_at(tokens, j + 1, level + 1)
        } else {
            Parsed::Broken
        },
        Some(TokenView::String(text)) => Parsed::Made(
            ExprView::BlockQuote(level as u8, text),
            j + 1,
        ),
        _ => Parsed::Broken,
    }
}

/// A code block from position `j` on, with the lines `content` read so
/// far: runs of text up to the closing mark; other tokens are passed over.
pub open spec fn block_at(tokens: Seq<TokenView>, j: int, content: Seq<Seq<char>>) -> Parsed
    decreases tokens.len() - j,
{
    match token_at(tokens, j) {
        None => Parsed::Nothing(
            if j < tokens.len() {
                tokens.len() as int
            } else {
                j
            },
        ),
        Some(TokenView::CodeBlock) => Parsed::Made(ExprView::CodeBlock(content), j + 1),
        Some(TokenView::String(text)) => block_at(tokens, j + 1, content.push(text)),
        Some(_) => block_at(tokens, j + 1, content),
    }
}

/// An ordered list with the entries `items` read so far. The reading goes
/// on at `main`, and looks ahead from `look`: for a carriage return, a
/// line feed and a run of text that is an entry.
pub open spec fn list_at(tokens: Seq<TokenView>, main: int, look: int, items: Seq<Seq<char>>) -> Parsed
    decreases tokens.len() + 2 - look,
{
    if token_at(tokens, look) == Some(TokenView::CarriageReturn) && token_at(tokens, look + 1)
        == Some(TokenView::NewLine) {
        match token_at(tokens, look + 2) {
            Some(TokenView::String(text)) => match item_of(text) {
                Item::Entry(item) => list_at(
                    tokens,
                    skipped(tokens, main, 3),
                    look + 3,
                    items.push(item),
                ),
                Item::Plain => Parsed::Made(ExprView::OrderedList(items), main),
                Item::Broken => Parsed::Broken,
            },
            _ => list_at(tokens, main, look + 3, items),
        }
    } else {
        Parsed::Made(ExprView::OrderedList(items), main)
    }
}

/// Every character of `s` is a `-`.
pub open spec fn all_dashes(s: Seq<char>) -> bool {
    forall|i: int| 0 <= i < s.len() ==> #[trigger] s[i] == '-'
}

/// A run of text `text`, which stands before position `j`, as an
/// expression: a rule, an image link, an ordered list, or plain text.
pub open spec fn text_at(tokens: Seq<TokenView>, j: int, text: Seq<char>) -> Parsed {
    if text.len() > 0 && text[0] == '-' {
        if text.len() > 2 && all_dashes(text) {
            Parsed::Made(ExprView::HorizontalRule, j)
        } else {
            Parsed::Nothing(j)
        }
    } else if text == "!"@ {
        if token_at(tokens, j) == Some(TokenView::OpenBracket) && token_at(tokens, j + 1) is Some
            && token_at(tokens, j + 1)->0 is String && token_at(tokens, j + 2) == Some(
            TokenView::CloseBracket,
        ) && token_at(tokens, j + 3) == Some(TokenView::OpenParentheses) && token_at(
            tokens,
            j + 4,
        ) is Some && token_at(tokens, j + 4)->0 is String && token_at(tokens, j + 5) == Some(
            TokenView::CloseParentheses,
        ) {
            Parsed::Made(
                ExprView::Link(
                    token_at(tokens, j + 1)->0->String_0,
                    token_at(tokens, j + 4)->0->String_0,
                ),
                j + 6,
            )
        } else {
            Parsed::Made(ExprView::Text("!"@), j)
        }
    } else {
        match item_of(text) {
            Item::Entry(item) => list_at(tokens, j, j, seq![item]),
            Item::Plain => Parsed::Made(ExprView::Text(text), j),
            Item::Broken => Parsed::Broken,
        }
    }
}

/// A run of text between two marks `mark`, from position `j` on.
pub open spec fn wrapped_at(tokens: Seq<TokenView>, j: int, mark: TokenView) -> Option<Seq<char>> {
    if token_at(tokens, j) is Some && token_at(tokens, j)->0 is String && token_at(tokens, j + 1)
        == Some(mark) {
        Some(token_at(tokens, j)->0->String_0)
    } else {
        None
    }
}

/// The expression that starts with the token at position `i`.
pub open spec fn parsed_at(
    tokens: Seq<TokenView>,
    i: int,
    templates: Seq<(Seq<char>, Seq<char>)>,
) -> Parsed {
    let j = i + 1;
    match tokens[i] {
        TokenView::OpenBracket => link_at(tokens, j),
        TokenView::Heading(level) => match token_at(tokens, j) {
            Some(TokenView::String(text)) => Parsed::Made(ExprView::Heading(level, text), j + 1),
            _ => Parsed::Broken,
        },
        TokenView::BlockQuote => quote_at(tokens, j, 1),
        TokenView::String(text) => text_at(tokens, j, text),
        TokenView::Bold => match wrapped_at(tokens, j, TokenView::Bold) {
            Some(text) => Parsed::Made(ExprView::Bold(text), j + 2),
            None => Parsed::Nothing(j),
        },
        TokenView::Italic => match wrapped_at(tokens, j, TokenView::Italic) {
            Some(text) => Parsed::Made(ExprView::Italic(text), j + 2),
            None => Parsed::Nothing(j),
        },
        TokenView::Strikethrough => match wrapped_at(tokens, j, TokenView::Strikethrough) {
            Some(text) => Parsed::Made(ExprView::Strikethrough(text), j + 2),
            None => Parsed::Nothing(j),
        },
        TokenView::BackTick => match wrapped_at(tokens, j, TokenView::BackTick) {
            Some(text) => Parsed::Made(ExprView::Code(text), j + 2),
            None => Parsed::Nothing(j),
        },
        TokenView::CodeBlock => block_at(tokens, j, Seq::empty()),
        TokenView::TemplateStart => match wrapped_at(tokens, j, TokenView::TemplateEnd) {
            Some(name) => Parsed::Made(
                ExprView::Template(template_text(templates, trimmed(name))),
                j + 2,
            ),
            None => Parsed::Nothing(j),
        },
        _ => Parsed::Nothing(j),
    }
}

/// The expressions of `tokens` from position `i` on, after `ast`.
pub open spec fn parsed_from(
    tokens: Seq<TokenView>,
    i: int,
    templates: Seq<(Seq<char>, Seq<char>)>,
    ast: Seq<ExprView>,
) -> Option<Seq<ExprView>>
    decreases tokens.len() - i,
{
    if i < 0 || i >= tokens.len() {
        Some(ast)
    } else {
        match parsed_at(tokens, i, templates) {
            Parsed::Made(expr, next) => if i < next <= tokens.len() {
                parsed_from(tokens, next, templates, ast.push(expr))
            } else {
                None
            },
            Parsed::Nothing(next) => if i < next <= tokens.len() {
                parsed_from(tokens, next, templates, ast)
            } else {
                None
            },
            Parsed::Broken => None,
        }
    }
}

/// The expressions of `tokens`, where the texts of the template files are
/// given by `templates`. Nothing where a heading or a block quote lacks
/// its text, a block quote has more than 255 marks, or a run of text
/// starts like an entry of a list and has no blank after its `.`.
pub open spec fn expressions_of(
    tokens: Seq<TokenView>,
    templates: Seq<(Seq<char>, Seq<char>)>,
) -> Option<Seq<ExprView>> {
    parsed_from(tokens, 0, templates, Seq::empty())
}

/// What reading one expression gives, as `expression` finds it.
#[derive(Debug)]
pub enum Read {
    /// An expression, and the position of the token to go on with.
    Made(Expr, usize),
    /// No expression, and the position of the token to go on with.
    Nothing(usize),
    /// The tokens are of a form that the reading does not take.
    Broken,
}

impl View for Read {
    type V = Parsed;

    open spec fn view(&self) -> Parsed {
        match self {
            Read::Made(expr, next) => Parsed::Made(expr@, *next as int),
            Read::Nothing(next) => Parsed::Nothing(*next as int),
            Read::Broken => Parsed::Broken,
        }
    }
}

impl Read {
    /// The reading goes on after position `at` and inside `tokens`.
    pub open spec fn moves_on(&self, at: int, tokens: Seq<TokenView>) -> bool {
        match self {
            Read::Made(_, next) => at < *next <= tokens.len(),
            Read::Nothing(next) => at < *next <= tokens.len(),
            Read::Broken => true,
        }
    }
}

/// The values of the pairs of `templates`: a path and the text of the
/// file there.
pub open spec fn table_of(templates: Seq<(String, String)>) -> Seq<(Seq<char>, Seq<char>)> {
    templates.map_values(|p: (String, String)| (p.0@, p.1@))
}

/// The token `offset` positions after `base`, if there is one.
fn peek(tokens: &Vec<Token>, base: usize, offset: usize) -> (token: Option<&Token>)
    requires
        base <= tokens.len(),
    ensures
        match token {
            Some(t) => token_at(token_views(tokens@), base + offset) == Some(t@),
            None => token_at(token_views(tokens@), base + offset) is None,
        },
{
    if offset < tokens.len() - base {
        Some(&tokens[base + offset])
    } else {
        None
    }
}

/// The run of text `offset` positions after `base`, if one stands there.
fn peek_text(tokens: &Vec<Token>, base: usize, offset: usize) -> (text: Option<&String>)
    requires
        base <= tokens.len(),
    ensures
        match text {
            Some(s) => token_at(token_views(tokens@), base + offset) == Some(
                TokenView::String(s@),
            ),
            None => !(token_at(token_views(tokens@), base + offset) is Some && token_at(
                token_views(tokens@),
                base + offset,
            )->0 is String),
        },
{
    match peek(tokens, base, offset) {
        Some(Token::String(text)) => Some(text),
        _ => None,
    }
}

/// Whether `token` is the mark `mark`.
fn same_mark(token: &Token, mark: &Token) -> (same: bool)
    requires
        !(mark is String),
        !(mark is Heading),
    ensures
        same == (token@ == mark@),
{
    match (token, mark) {
        (Token::Italic, Token::Italic) => true,
        (Token::Bold, Token::Bold) => true,
        (Token::Strikethrough, Token::Strikethrough) => true,
        (Token::BackTick, Token::BackTick) => true,
        (Token::CodeBlock, Token::CodeBlock) => true,
        (Token::BlockQuote, Token::BlockQuote) => true,
        (Token::OpenBracket, Token::OpenBracket) => true,
        (Token::CloseBracket, Token::CloseBracket) => true,
        (Token::OpenParentheses, Token::OpenParentheses) => true,
        (Token::CloseParentheses, Token::CloseParentheses) => true,
        (Token::NewLine, Token::NewLine) => true,
        (Token::CarriageReturn, Token::CarriageReturn) => true,
        (Token::Tab, Token::Tab) => true,
        (Token::TemplateStart, Token::TemplateStart) => true,
        (Token::TemplateEnd, Token::TemplateEnd) => true,
        (Token::CommentStart, Token::CommentStart) => true,
        (Token::CommentEnd, Token::CommentEnd) => true,
        (Token::Tag, Token::Tag) => true,
        (Token::Equal, Token::Equal) => true,
        (Token::ShortcodeStart, Token::ShortcodeStart) => true,
        (Token::ShortcodeEnd, Token::ShortcodeEnd) => true,
        (Token::Plus, Token::Plus) => true,
        _ => false,
    }
}

/// Whether the mark `mark` stands `offset` positions after `base`.
fn peek_is(tokens: &Vec<Token>, base: usize, offset: usize, mark: &Token) -> (is: bool)
    requires
        base <= tokens.len(),
        !(mark is String),
        !(mark is Heading),
    ensures
        is == (token_at(token_views(tokens@), base + offset) == Some(mark@)),
{
    match peek(tokens, base, offset) {
        Some(token) => same_mark(token, mark),
        None => false,
    }
}

/// The position `n` tokens after `from`, or the end of the tokens.
fn skip(tokens: &Vec<Token>, from: usize, n: usize) -> (to: usize)
    requires
        from <= tokens.len(),
    ensures
        to == skipped(token_views(tokens@), from as int, n as int),
        from <= to <= tokens.len(),
        n > 0 && from < tokens.len() ==> from < to,
{
    if n <= tokens.len() - from {
        from + n
    } else {
        tokens.len()
    }
}

/// Reads a link after its `[`, which stands before position `j`.
fn read_link(tokens: &Vec<Token>, j: usize) -> (read: Read)
    requires
        0 < j <= tokens.len(),
    ensures
        read@ == link_at(token_views(tokens@), j as int),
        read.moves_on(j - 1, token_views(tokens@)),
{
    let (title, a): (String, usize) = match peek_text(tokens, j, 0) {
        Some(text) => (text.clone(), j + 1),
        None => (String::new(), j),
    };
    if peek_is(tokens, a, 0, &Token::CloseBracket) && peek_is(
        tokens,
        a,
        1,
        &Token::OpenParentheses,
    ) {
        let (link, b): (String, usize) = match peek_text(tokens, a, 2) {
            Some(text) => (text.clone(), a + 3),
            None => (String::new(), a + 2),
        };
        if peek_is(tokens, b, 0, &Token::CloseParentheses) {
            let taken: usize = if title.as_str().unicode_len() > 0 {
                7
            } else {
                3
            };
            return Read::Made(Expr::Link(title, link), skip(tokens, j, taken));
        }
    }
    Read::Nothing(j)
}

/// Reads a block quote after its first mark, which stands before
/// position `j`.
fn read_quote(tokens: &Vec<Token>, j: usize) -> (read: Read)
    requires
        0 < j <= tokens.len(),
    ensures
        read@ == quote_at(token_views(tokens@), j as int, 1),
        read.moves_on(j - 1, token_views(tokens@)),
{
    let mut level: u8 = 1;
    let mut at: usize = j;
    loop
        invariant
            j <= at <= tokens.len(),
            1 <= level,
            quote_at(token_views(tokens@), j as int, 1) == quote_at(
                token_views(tokens@),
                at as int,
                level as int,
            ),
        decreases tokens.len() - at,
    {
        match peek(tokens, at, 0) {
            Some(Token::BlockQuote) => {
                if level == 255 {
                    return Read::Broken;
                }
                level += 1;
                at += 1;
            },
            Some(Token::String(text)) => {
                return Read::Made(Expr::BlockQuote(level, text.clone()), at + 1);
            },
            _ => {
                return Read::Broken;
            },
        }
    }
}

/// Reads a code block after its opening mark, which stands before
/// position `j`.
fn read_block(tokens: &Vec<Token>, j: usize) -> (read: Read)
    requires
        0 < j <= tokens.len(),
    ensures
        read@ == block_at(token_views(tokens@), j as int, Seq::empty()),
        read.moves_on(j - 1, token_views(tokens@)),
{
    let mut content: Vec<String> = Vec::new();
    let mut at: usize = j;
    assert(lines_of(content@) == Seq::<Seq<char>>::empty());
    loop
        invariant
            j <= at <= tokens.len(),
            block_at(token_views(tokens@), j as int, Seq::empty()) == block_at(
                token_views(tokens@),
                at as int,
                lines_of(content@),
            ),
        decreases tokens.len() - at,
    {
        match peek(tokens, at, 0) {
            None => {
                return Read::Nothing(at);
            },
            Some(Token::CodeBlock) => {
                return Read::Made(Expr::CodeBlock(content), at + 1);
            },
            Some(Token::String(text)) => {
                let ghost before = lines_of(content@);
                content.push(text.clone());
                assert(lines_of(content@) == before.push(text@));
                at += 1;
            },
            Some(_) => {
                at += 1;
            },
        }
    }
}

/// Reads an ordered list after its first entry `first`, which stands
/// before position `j`.
fn read_list(tokens: &Vec<Token>, j: usize, first: String) -> (read: Read)
    requires
        0 < j <= tokens.len(),
    ensures
        read@ == list_at(token_views(tokens@), j as int, j as int, seq![first@]),
        read.moves_on(j - 1, token_views(tokens@)),
{
    let mut items: Vec<String> = Vec::new();
    items.push(first);
    assert(lines_of(items@) == seq![first@]);
    let mut main: usize = j;
    let mut look: usize = j;
    loop
        invariant
            j <= main <= tokens.len(),
            j <= look <= tokens.len(),
            list_at(token_views(tokens@), j as int, j as int, seq![first@]) == list_at(
                token_views(tokens@),
                main as int,
                look as int,
                lines_of(items@),
            ),
        decreases tokens.len() - look,
    {
        if peek_is(tokens, look, 0, &Token::CarriageReturn) && peek_is(
            tokens,
            look,
            1,
            &Token::NewLine,
        ) {
            match peek_text(tokens, look, 2) {
                Some(text) => match list_item(text.as_str()) {
                    ListItem::Entry(item) => {
                        let ghost before = lines_of(items@);
                        assert(lines_of(items@.push(item)) == before.push(item@));
                        items.push(item);
                        main = skip(tokens, main, 3);
                        look += 3;
                    },
                    ListItem::Plain => {
                        return Read::Made(Expr::OrderedList(items), main);
                    },
                    ListItem::Broken => {
                        return Read::Broken;
                    },
                },
                None => {
                    if tokens.len() - look < 3 {
                        assert(token_at(token_views(tokens@), look + 2) is None);
                        assert(list_at(
                            token_views(tokens@),
                            main as int,
                            look + 3,
                            lines_of(items@),
                        ) == Parsed::Made(ExprView::OrderedList(lines_of(items@)), main as int));
                        return Read::Made(Expr::OrderedList(items), main);
                    }
                    look += 3;
                },
            }
        } else {
            return Read::Made(Expr::OrderedList(items), main);
        }
    }
}

/// Whether every character of `text` is a `-`.
fn dashes(text: &Vec<char>) -> (all: bool)
    ensures
        all == all_dashes(text@),
{
    let mut i: usize = 0;
    while i < text.len()
        invariant
            i <= text.len(),
            forall|k: int| 0 <= k < i ==> #[trigger] text@[k] == '-',
        decreases text.len() - i,
    {
        if text[i] != '-' {
            return false;
        }
        i += 1;
    }
    true
}

/// Reads the run of text `text`, which stands before position `j`.
fn read_text(tokens: &Vec<Token>, j: usize, text: &String) -> (read: Read)
    requires
        0 < j <= tokens.len(),
    ensures
        read@ == text_at(token_views(tokens@), j as int, text@),
        read.moves_on(j - 1, token_views(tokens@)),
{
    let chars = chars_of(text.as_str());
    if chars.len() > 0 && chars[0] == '-' {
        if chars.len() > 2 && dashes(&chars) {
            return Read::Made(Expr::HorizontalRule, j);
        }
        return Read::Nothing(j);
    }
    if same_chars(&chars, &chars_of("!")) {
        if peek_is(tokens, j, 0, &Token::OpenBracket) && peek_is(tokens, j, 2, &Token::CloseBracket)
            && peek_is(tokens, j, 3, &Token::OpenParentheses) && peek_is(
            tokens,
            j,
            5,
            &Token::CloseParentheses,
        ) {
            match (peek_text(tokens, j, 1), peek_text(tokens, j, 4)) {
                (Some(title), Some(link)) => {
                    return Read::Made(Expr::Link(title.clone(), link.clone()), j + 6);
                },
                _ => {},
            }
        }
        return Read::Made(Expr::Text("!".to_owned()), j);
    }
    match list_item(text.as_str()) {
        ListItem::Entry(item) => read_list(tokens, j, item),
        ListItem::Plain => Read::Made(Expr::Text(text.clone()), j),
        ListItem::Broken => Read::Broken,
    }
}

/// The run of text at position `j`, if the mark `mark` follows it.
fn wrapped<'a>(tokens: &'a Vec<Token>, j: usize, mark: &Token) -> (text: Option<&'a String>)
    requires
        j <= tokens.len(),
        !(mark is String),
        !(mark is Heading),
    ensures
        match text {
            Some(s) => wrapped_at(token_views(tokens@), j as int, mark@) == Some(s@) && j + 2
                <= tokens.len(),
            None => wrapped_at(token_views(tokens@), j as int, mark@) is None,
        },
{
    match peek_text(tokens, j, 0) {
        Some(text) => if peek_is(tokens, j, 1, mark) {
            Some(text)
        } else {
            None
        },
        None => None,
    }
}

/// The text kept for `key` in `table`.
fn look_up<'a>(table: &'a Vec<(String, String)>, key: &String) -> (text: Option<&'a String>)
    ensures
        match text {
            Some(t) => looked_up(table_of(table@), key@) == Some(t@),
            None => looked_up(table_of(table@), key@) is None,
        },
{
    let ghost all = table_of(table@);
    let mut i: usize = 0;
    assert(all.skip(0) == all);
    while i < table.len()
        invariant
            i <= table@.len(),
            all == table_of(table@),
            looked_up(all, key@) == looked_up(all.skip(i as int), key@),
        decreases table.len() - i,
    {
        assert(all.skip(i as int)[0] == (table@[i as int].0@, table@[i as int].1@));
        if table[i].0 == *key {
            return Some(&table[i].1);
        }
        assert(all.skip(i as int).drop_first() == all.skip(i + 1));
        i += 1;
    }
    assert(all.skip(i as int).len() == 0);
    None
}

/// The text that stands for the template named `name`.
fn template(templates: &Vec<(String, String)>, name: &Vec<char>) -> (text: String)
    ensures
        text@ == template_text(table_of(templates@), name@),
{
    let mut path = chars_of("templates/");
    append(&mut path, name);
    append(&mut path, &chars_of(".html"));
    match look_up(templates, &string_of(&path)) {
        Some(text) => text.clone(),
        None => {
            let mut note = chars_of("<!-- TEMPLATE FILE '");
            append(&mut note, name);
            append(&mut note, &chars_of(".html' DOES NOT EXIST! -->"));
            string_of(&note)
        },
    }
}

/// Reads the expression that starts with the token at position `at`. The
/// texts of the template files are given by `templates`, each with its
/// path.
pub fn expression(tokens: &Vec<Token>, at: usize, templates: &Vec<(String, String)>) -> (read: Read)
    requires
        at < tokens.len(),
    ensures
        read@ == parsed_at(token_views(tokens@), at as int, table_of(templates@)),
        read.moves_on(at as int, token_views(tokens@)),
{
    let j: usize = at + 1;
    assert(token_views(tokens@)[at as int] == tokens@[at as int]@);
    match &tokens[at] {
        Token::OpenBracket => read_link(tokens, j),
        Token::Heading(level) => match peek_text(tokens, j, 0) {
            Some(text) => Read::Made(Expr::Heading(*level, text.clone()), j + 1),
            None => Read::Broken,
        },
        Token::BlockQuote => read_quote(tokens, j),
        Token::String(text) => read_text(tokens, j, text),
        Token::Bold => match wrapped(tokens, j, &Token::Bold) {
            Some(text) => Read::Made(Expr::Bold(text.clone()), j + 2),
            None => Read::Nothing(j),
        },
        Token::Italic => match wrapped(tokens, j, &Token::Italic) {
            Some(text) => Read::Made(Expr::Italic(text.clone()), j + 2),
            None => Read::Nothing(j),
        },
        Token::Strikethrough => match wrapped(tokens, j, &Token::Strikethrough) {
            Some(text) => Read::Made(Expr::Strikethrough(text.clone()), j + 2),
            None => Read::Nothing(j),
        },
        Token::BackTick => match wrapped(tokens, j, &Token::BackTick) {
            Some(text) => Read::Made(Expr::Code(text.clone()), j + 2),
            None => Read::Nothing(j),
        },
        Token::CodeBlock => read_block(tokens, j),
        Token::TemplateStart => match wrapped(tokens, j, &Token::TemplateEnd) {
            Some(name) => Read::Made(
                Expr::Template(template(templates, &trim(&chars_of(name.as_str())))),
                j + 2,
            ),
            None => Read::Nothing(j),
        },
        _ => Read::Nothing(j),
    }
}

/// Reads tokens as expressions.
pub fn parse_tokens(tokens: &Vec<Token>, templates: &Vec<(String, String)>) -> (made: Option<
    Vec<Expr>,
>)
    ensures
        match made {
            Some(ast) => expressions_of(token_views(tokens@), table_of(templates@)) == Some(
                expr_views(ast@),
            ),
            None => expressions_of(token_views(tokens@), table_of(templates@)) is None,
        },
{
    let mut ast: Vec<Expr> = Vec::new();
    let mut at: usize = 0;
    assert(expr_views(ast@) == Seq::<ExprView>::empty());
    while at < tokens.len()
        invariant
            at <= tokens.len(),
            expressions_of(token_views(tokens@), table_of(templates@)) == parsed_from(
                token_views(tokens@),
                at as int,
                table_of(templates@),
                expr_views(ast@),
            ),
        decreases tokens.len() - at,
    {
        match expression(tokens, at, templates) {
            Read::Made(expr, next) => {
                let ghost before = expr_views(ast@);
                let ghost value = expr@;
                ast.push(expr);
                assert(expr_views(ast@) == before.push(value));
                at = next;
            },
            Read::Nothing(next) => {
                at = next;
            },
            Read::Broken => {
                return None;
            },
        }
    }
    Some(ast)
}

/// Reads tokens as expressions, as `parse_tokens` does.
pub fn parse(tokens: &Vec<Token>, templates: &Vec<(String, String)>) -> (made: Option<Vec<Expr>>)
    ensures
        match made {
            Some(ast) => expressions_of(token_views(tokens@), table_of(templates@)) == Some(
                expr_views(ast@),
            ),
            None => expressions_of(token_views(tokens@), table_of(templates@)) is None,
        },
{
    parse_tokens(tokens, templates)
}

/// `s` written `n` times.
pub open spec fn repeated(s: Seq<char>, n: nat) -> Seq<char>
    decreases n,
{
    if n == 0 {
        Seq::empty()
    } else {
        repeated(s, (n - 1) as nat) + s
    }
}

/// Each of `lines` between `before` and `after`, one after the other.
pub open spec fn framed(lines: Seq<Seq<char>>, before: Seq<char>, after: Seq<char>) -> Seq<char>
    decreases lines.len(),
{
    if lines.len() == 0 {
        Seq::empty()
    } else {
        framed(lines.drop_last(), before, after) + before + lines.last() + after
    }
}

/// The tag that opens a heading of level `level`, from one to six.
pub open spec fn heading_open(level: u8) -> Seq<char> {
    if level == 1 {
        "<h1>"@
    } else if level == 2 {
        "<h2>"@
    } else if level == 3 {
        "<h3>"@
    } else if level == 4 {
        "<h4>"@
    } else if level == 5 {
        "<h5>"@
    } else {
        "<h6>"@
    }
}

/// The tag that closes a heading of level `level`, from one to six.
pub open spec fn heading_close(level: u8) -> Seq<char> {
    if level == 1 {
        "</h1>"@
    } else if level == 2 {
        "</h2>"@
    } else if level == 3 {
        "</h3>"@
    } else if level == 4 {
        "</h4>"@
    } else if level == 5 {
        "</h5>"@
    } else {
        "</h6>"@
    }
}

/// The HTML of one expression. A heading has a level from one to six, or
/// no HTML; a variable is written as nothing.
pub open spec fn html_of(expr: ExprView) -> Option<Seq<char>> {
    match expr {
        ExprView::Heading(level, text) => if 1 <= level <= 6 {
            Some(heading_open(level) + text + heading_close(level))
        } else {
            None
        },
        ExprView::BlockQuote(level, text) => Some(
            repeated("<blockquote>"@, level as nat) + text + repeated(
                "</blockquote>"@,
                level as nat,
            ),
        ),
        ExprView::Bold(text) => Some("<b>"@ + text + "</b>"@),
        ExprView::Italic(text) => Some("<i>"@ + text + "</i>"@),
        ExprView::OrderedList(items) => Some(
            "<ol>\n"@ + framed(items, "\t<li>"@, "</li>\n"@) + "</ol>"@,
        ),
        ExprView::Link(title, link) => Some("<a href=\""@ + link + "\">"@ + title + "</a>"@),
        ExprView::Text(text) => Some("<p>"@ + text + "</p>"@),
        ExprView::Strikethrough(text) => Some("<s>"@ + text + "</s>"@),
        ExprView::CodeBlock(lines) => Some(
            "<code>\n"@ + framed(lines, Seq::empty(), "\n"@) + "</code>"@,
        ),
        ExprView::Code(text) => Some("<code>"@ + text + "</code>"@),
        ExprView::HorizontalRule => Some("<hr>"@),
        ExprView::Template(text) => Some(text),
        ExprView::Variable(_) => Some(Seq::empty()),
    }
}

/// The HTML of the expressions `ast`: each with a line feed after it.
/// Nothing where one of them has no HTML.
pub open spec fn converted(ast: Seq<ExprView>) -> Option<Seq<char>>
    decreases ast.len(),
{
    if ast.len() == 0 {
        Some(Seq::empty())
    } else {
        match (converted(ast.drop_last()), html_of(ast.last())) {
            (Some(before), Some(html)) => Some(before + html + "\n"@),
            _ => None,
        }
    }
}

/// Appends `s` to `out`, `n` times.
fn push_repeated(out: &mut Vec<char>, s: &str, n: u8)
    ensures
        final(out)@ == old(out)@ + repeated(s@, n as nat),
{
    let chars = chars_of(s);
    let mut i: u8 = 0;
    while i < n
        invariant
            i <= n,
            chars@ == s@,
            out@ == old(out)@ + repeated(s@, i as nat),
        decreases n - i,
    {
        let ghost before = out@;
        append(out, &chars);
        assert(old(out)@ + (repeated(s@, i as nat) + s@) == before + s@);
        i += 1;
    }
}

/// Appends each of `lines` between `before` and `after` to `out`.
fn push_framed(out: &mut Vec<char>, lines: &Vec<String>, before: &str, after: &str)
    ensures
        final(out)@ == old(out)@ + framed(lines_of(lines@), before@, after@),
{
    let ghost all = lines_of(lines@);
    let mut i: usize = 0;
    while i < lines.len()
        invariant
            i <= lines@.len(),
            all == lines_of(lines@),
            out@ == old(out)@ + framed(all.take(i as int), before@, after@),
        decreases lines.len() - i,
    {
        let ghost sofar = out@;
        append(out, &chars_of(before));
        append(out, &chars_of(lines[i].as_str()));
        append(out, &chars_of(after));
        proof {
            assert(all.take(i + 1).drop_last() == all.take(i as int));
            assert(all.take(i + 1).last() == lines@[i as int]@);
            assert(out@ == old(out)@ + (framed(all.take(i as int), before@, after@) + before@
                + lines@[i as int]@ + after@));
        }
        i += 1;
    }
    assert(all.take(i as int) == all);
}

/// Appends `text` between `open` and `close` to `out`.
fn push_between(out: &mut Vec<char>, open: &str, text: &String, close: &str)
    ensures
        final(out)@ == old(out)@ + (open@ + text@ + close@),
{
    append(out, &chars_of(open));
    append(out, &chars_of(text.as_str()));
    append(out, &chars_of(close));
    assert(out@ == old(out)@ + (open@ + text@ + close@));
}

/// The tags that open and close a heading of level `level`.
fn heading_tags(level: u8) -> (tags: (&'static str, &'static str))
    requires
        1 <= level <= 6,
    ensures
        tags.0@ == heading_open(level),
        tags.1@ == heading_close(level),
{
    if level == 1 {
        ("<h1>", "</h1>")
    } else if level == 2 {
        ("<h2>", "</h2>")
    } else if level == 3 {
        ("<h3>", "</h3>")
    } else if level == 4 {
        ("<h4>", "</h4>")
    } else if level == 5 {
        ("<h5>", "</h5>")
    } else {
        ("<h6>", "</h6>")
    }
}

/// Appends the HTML of `expr` to `out`, and says whether it has one.
fn push_html(out: &mut Vec<char>, expr: &Expr) -> (done: bool)
    ensures
        match html_of(expr@) {
            Some(html) => done && final(out)@ == old(out)@ + html,
            None => !done,
        },
{
    match expr {
        Expr::Heading(level, text) => {
            if *level < 1 || *level > 6 {
                return false;
            }
            let tags = heading_tags(*level);
            push_between(out, tags.0, text, tags.1);
        },
        Expr::BlockQuote(level, text) => {
            push_repeated(out, "<blockquote>", *level);
            append(out, &chars_of(text.as_str()));
            push_repeated(out, "</blockquote>", *level);
            assert(out@ == old(out)@ + (repeated("<blockquote>"@, *level as nat) + text@
                + repeated("</blockquote>"@, *level as nat)));
        },
        Expr::Bold(text) => push_between(out, "<b>", text, "</b>"),
        Expr::Italic(text) => push_between(out, "<i>", text, "</i>"),
        Expr::OrderedList(items) => {
            append(out, &chars_of("<ol>\n"));
            push_framed(out, items, "\t<li>", "</li>\n");
            append(out, &chars_of("</ol>"));
            assert(out@ == old(out)@ + ("<ol>\n"@ + framed(
                lines_of(items@),
                "\t<li>"@,
                "</li>\n"@,
            ) + "</ol>"@));
        },
        Expr::Link(title, link) => {
            append(out, &chars_of("<a href=\""));
            append(out, &chars_of(link.as_str()));
            append(out, &chars_of("\">"));
            append(out, &chars_of(title.as_str()));
            append(out, &chars_of("</a>"));
            assert(out@ == old(out)@ + ("<a href=\""@ + link@ + "\">"@ + title@ + "</a>"@));
        },
        Expr::Text(text) => push_between(out, "<p>", text, "</p>"),
        Expr::Strikethrough(text) => push_between(out, "<s>", text, "</s>"),
        Expr::CodeBlock(lines) => {
            append(out, &chars_of("<code>\n"));
            proof {
                reveal_strlit("");
            }
            assert(""@ == Seq::<char>::empty());
            push_framed(out, lines, "", "\n");
            append(out, &chars_of("</code>"));
            assert(out@ == old(out)@ + ("<code>\n"@ + framed(
                lines_of(lines@),
                Seq::empty(),
                "\n"@,
            ) + "</code>"@));
        },
        Expr::Code(text) => push_between(out, "<code>", text, "</code>"),
        Expr::HorizontalRule => append(out, &chars_of("<hr>")),
        Expr::Template(text) => append(out, &chars_of(text.as_str())),
        Expr::Variable(_) => {
            assert(out@ == old(out)@ + Seq::<char>::empty());
        },
    }
    true
}

/// Writes expressions as HTML.
pub fn convert(ast: Vec<Expr>) -> (made: Option<String>)
    ensures
        match made {
            Some(html) => converted(expr_views(ast@)) == Some(html@),
            None => converted(expr_views(ast@)) is None,
        },
{
    let ghost all = expr_views(ast@);
    let mut out: Vec<char> = Vec::new();
    let mut i: usize = 0;
    while i < ast.len()
        invariant
            i <= ast@.len(),
            all == expr_views(ast@),
            converted(all.take(i as int)) == Some(out@),
        decreases ast.len() - i,
    {
        proof {
            assert(all.take(i + 1).drop_last() == all.take(i as int));
            assert(all.take(i + 1).last() == ast@[i as int]@);
        }
        let ghost before = out@;
        if !push_html(&mut out, &ast[i]) {
            proof {
                lemma_converted_none(all, i + 1);
            }
            return None;
        }
        out.push('\n');
        proof {
            reveal_strlit("\n");
            assert(out@ == before + html_of(ast@[i as int]@)->0 + "\n"@);
        }
        i += 1;
    }
    assert(all.take(i as int) == all);
    Some(string_of(&out))
}

/// Where the first `k` of some expressions have no HTML, the expressions
/// have none.
pub proof fn lemma_converted_none(ast: Seq<ExprView>, k: int)
    requires
        0 <= k <= ast.len(),
        converted(ast.take(k)) is None,
    ensures
        converted(ast) is None,
    decreases ast.len() - k,
{
    if k < ast.len() {
        assert(ast.take(k + 1).drop_last() == ast.take(k));
        lemma_converted_none(ast, k + 1);
    } else {
        assert(ast.take(k) == ast);
    }
}

} // verus!
