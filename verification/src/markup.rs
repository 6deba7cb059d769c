//! Message text as markup: bold and italic delimiters, line breaks, and
//! mentions of users and channels.

use crate::discord_structs::views;
use crate::net::{LawsClient, Lookup, LookupView, Names};
use crate::text::{char_at, chars_of, len_until, scan_until, substring};
use vstd::prelude::*;
use vstd::string::*;

verus! {

/// One unit of message text.
#[derive(Debug)]
pub enum Token {
    /// Two asterisks: bold text starts or ends.
    Bold,
    /// One asterisk: italic text starts or ends.
    Italic,
    /// A mention of the channel with this identifier.
    Channel(String),
    /// A mention of the user with this identifier.
    User(String),
    /// A line feed.
    Break,
    /// A character that stands for itself.
    Char(char),
}

pub enum TokenView {
    Bold,
    Italic,
    Channel(Seq<char>),
    User(Seq<char>),
    Break,
    Char(char),
}

impl View for Token {
    type V = TokenView;

    open spec fn view(&self) -> TokenView {
        match self {
            Token::Bold => TokenView::Bold,
            Token::Italic => TokenView::Italic,
            Token::Channel(id) => TokenView::Channel(id@),
            Token::User(id) => TokenView::User(id@),
            Token::Break => TokenView::Break,
            Token::Char(c) => TokenView::Char(*c),
        }
    }
}

/// The identifier at the start of `s`: what stands before the first `>`.
pub open spec fn ident(s: Seq<char>) -> Seq<char> {
    s.take(len_until(s, '>') as int)
}

/// What follows the identifier at the start of `s` and the `>` that ends it.
pub open spec fn after_ident(s: Seq<char>) -> Seq<char> {
    let n = len_until(s, '>');
    if n < s.len() {
        s.skip(n as int + 1)
    } else {
        Seq::empty()
    }
}

/// The tokens of `text`, read from left to right. At each position the
/// first rule that applies is taken: a pair of asterisks, one asterisk, a
/// channel mention `<#id>`, a user mention `<@id>` or `<@!id>`, a `<` with
/// the character after it taken as it stands, a line feed, any other
/// character.
pub open spec fn tokens(text: Seq<char>) -> Seq<TokenView>
    decreases text.len(),
{
    if text.len() == 0 {
        Seq::empty()
    } else if text[0] == '*' {
        if text.len() > 1 && text[1] == '*' {
            seq![TokenView::Bold] + tokens(text.skip(2))
        } else {
            seq![TokenView::Italic] + tokens(text.skip(1))
        }
    } else if text[0] == '<' {
        if text.len() == 1 {
            seq![TokenView::Char('<')]
        } else if text[1] == '#' {
            let body = text.skip(2);
            seq![TokenView::Channel(ident(body))] + tokens(after_ident(body))
        } else if text[1] == '@' {
            let body = if text.len() > 2 && text[2] == '!' {
                text.skip(3)
            } else {
                text.skip(2)
            };
            seq![TokenView::User(ident(body))] + tokens(after_ident(body))
        } else {
            seq![TokenView::Char('<'), TokenView::Char(text[1])] + tokens(text.skip(2))
        }
    } else if text[0] == '\n' {
        seq![TokenView::Break] + tokens(text.skip(1))
    } else {
        seq![TokenView::Char(text[0])] + tokens(text.skip(1))
    }
}

/// The name that a token needs, if it is a mention.
pub open spec fn needed(t: TokenView) -> Option<LookupView> {
    match t {
        TokenView::Channel(id) => Some(LookupView::Channel(id)),
        TokenView::User(id) => Some(LookupView::Member(id)),
        _ => None,
    }
}

/// The first mention among `toks` whose name is not resolved.
pub open spec fn missing(toks: Seq<TokenView>, names: Names) -> Option<LookupView>
    decreases toks.len(),
{
    if toks.len() == 0 {
        None
    } else {
        match needed(toks[0]) {
            Some(l) if !names.knows(l) => Some(l),
            _ => missing(toks.drop_first(), names),
        }
    }
}

/// The markup of one token, given whether bold and italic text are open.
pub open spec fn piece(t: TokenView, bold: bool, italic: bool, names: Names) -> Seq<char> {
    match t {
        TokenView::Bold => if bold {
            "</b>"@
        } else {
            "<b>"@
        },
        TokenView::Italic => if italic {
            "</i>"@
        } else {
            "<i>"@
        },
        TokenView::Channel(id) => "<span class=\"ping\">#"@ + names.channels[id] + "</span>"@,
        TokenView::User(id) => "<span class=\"ping\">@"@ + names.users[id] + "</span>"@,
        TokenView::Break => "<br>"@,
        TokenView::Char(c) => seq![c],
    }
}

/// The markup of `toks`, starting with bold and italic text open or not as
/// given. Text left open at the end stays open.
pub open spec fn markup(toks: Seq<TokenView>, bold: bool, italic: bool, names: Names) -> Seq<
    char,
>
    decreases toks.len(),
{
    if toks.len() == 0 {
        Seq::empty()
    } else {
        piece(toks[0], bold, italic, names) + markup(
            toks.drop_first(),
            bold != (toks[0] is Bold),
            italic != (toks[0] is Italic),
            names,
        )
    }
}

/// Splits message text into tokens in one pass from left to right.
pub fn lex(content: &str) -> (toks: Vec<Token>)
    ensures
        views(toks@) == tokens(content@),
{
    let chars = chars_of(content);
    let n = chars.len();
    let mut toks: Vec<Token> = Vec::new();
    let mut i: usize = 0;
    assert(chars@.skip(0) =~= chars@);
    assert(views(toks@) + tokens(chars@) =~= tokens(chars@));
    while i < n
        invariant
            i <= n,
            n == chars.len(),
            chars@ == content@,
            tokens(chars@) == views(toks@) + tokens(chars@.skip(i as int)),
        decreases n - i,
    {
        let ghost rest = chars@.skip(i as int);
        let ghost before = views(toks@);
        let ch = char_at(&chars, i);
        assert(rest.len() == n - i && rest[0] == ch);
        if ch == '*' {
            if i + 1 < n && chars[i + 1] == '*' {
                assert(rest[1] == chars@[i + 1]);
                toks.push(Token::Bold);
                i = i + 2;
                assert(rest.skip(2) =~= chars@.skip(i as int));
                assert(views(toks@) =~= before + seq![TokenView::Bold]);
            } else {
                if i + 1 < n {
                    assert(rest[1] == chars@[i + 1]);
                }
                toks.push(Token::Italic);
                i = i + 1;
                assert(rest.skip(1) =~= chars@.skip(i as int));
                assert(views(toks@) =~= before + seq![TokenView::Italic]);
            }
        } else if ch == '<' {
            if i + 1 >= n {
                toks.push(Token::Char('<'));
                i = i + 1;
                assert(chars@.skip(i as int) =~= Seq::<char>::empty());
                assert(views(toks@) =~= before + seq![TokenView::Char('<')]);
            } else {
                let next = char_at(&chars, i + 1);
                assert(rest[1] == next);
                if next == '#' {
                    let start = i + 2;
                    let end = scan_until(&chars, start, '>');
                    let id = substring(&chars, start, end);
                    let ghost body = rest.skip(2);
                    assert(body =~= chars@.skip(start as int));
                    assert(id@ =~= ident(body));
                    toks.push(Token::Channel(id));
                    i = if end < n {
                        end + 1
                    } else {
                        n
                    };
                    assert(after_ident(body) =~= chars@.skip(i as int));
                    assert(views(toks@) =~= before + seq![TokenView::Channel(ident(body))]);
                } else if next == '@' {
                    let start = if i + 2 < n && chars[i + 2] == '!' {
                        i + 3
                    } else {
                        i + 2
                    };
                    if i + 2 < n {
                        assert(rest[2] == chars@[i + 2]);
                    }
                    let end = scan_until(&chars, start, '>');
                    let id = substring(&chars, start, end);
                    let ghost body = chars@.skip(start as int);
                    proof {
                        if start == i + 3 {
                            assert(rest.skip(3) =~= body);
                        } else {
                            assert(rest.skip(2) =~= body);
                        }
                    }
                    assert(id@ =~= ident(body));
                    toks.push(Token::User(id));
                    i = if end < n {
                        end + 1
                    } else {
                        n
                    };
                    assert(after_ident(body) =~= chars@.skip(i as int));
                    assert(views(toks@) =~= before + seq![TokenView::User(ident(body))]);
                } else {
                    toks.push(Token::Char('<'));
                    let ghost mid = views(toks@);
                    assert(mid =~= before + seq![TokenView::Char('<')]);
                    toks.push(Token::Char(next));
                    i = i + 2;
                    assert(views(toks@) =~= mid + seq![TokenView::Char(next)]);
                    assert(seq![TokenView::Char('<')] + seq![TokenView::Char(next)] =~= seq![
                        TokenView::Char('<'),
                        TokenView::Char(next),
                    ]);
                    assert(rest.skip(2) =~= chars@.skip(i as int));
                    assert(views(toks@) =~= before + seq![
                        TokenView::Char('<'),
                        TokenView::Char(next),
                    ]);
                }
            }
        } else if ch == '\n' {
            toks.push(Token::Break);
            i = i + 1;
            assert(rest.skip(1) =~= chars@.skip(i as int));
            assert(views(toks@) =~= before + seq![TokenView::Break]);
        } else {
            toks.push(Token::Char(ch));
            i = i + 1;
            assert(rest.skip(1) =~= chars@.skip(i as int));
            assert(views(toks@) =~= before + seq![TokenView::Char(ch)]);
        }
    }
    assert(chars@.skip(n as int) =~= Seq::<char>::empty());
    assert(views(toks@) + Seq::<TokenView>::empty() =~= views(toks@));
    toks
}

/// Renders tokens as markup, with the names that `client` has resolved.
/// Where a mention's name is not resolved yet, the first such mention is
/// returned instead: the caller looks it up, records it and asks again.
pub fn render(client: &LawsClient, toks: &Vec<Token>) -> (r: Result<String, Lookup>)
    ensures
        match r {
            Ok(s) => missing(views(toks@), client@) is None && s@ == markup(
                views(toks@),
                false,
                false,
                client@,
            ),
            Err(l) => missing(views(toks@), client@) == Some(l@),
        },
{
    let ghost all = views(toks@);
    let ghost names = client@;
    let mut out = String::new();
    let mut bold = false;
    let mut italic = false;
    let mut i: usize = 0;
    assert(all.skip(0) =~= all);
    assert(out@ + markup(all, false, false, names) =~= markup(all, false, false, names));
    while i < toks.len()
        invariant
            i <= toks.len(),
            all == views(toks@),
            names == client@,
            missing(all, names) == missing(all.skip(i as int), names),
            markup(all, false, false, names) == out@ + markup(
                all.skip(i as int),
                bold,
                italic,
                names,
            ),
        decreases toks.len() - i,
    {
        let ghost rest = all.skip(i as int);
        let ghost before = out@;
        let ghost tail = markup(
            rest.drop_first(),
            bold != (rest[0] is Bold),
            italic != (rest[0] is Italic),
            names,
        );
        assert(rest[0] == toks@[i as int]@);
        assert(rest.drop_first() =~= all.skip(i + 1));
        let ghost head = piece(rest[0], bold, italic, names);
        assert(markup(rest, bold, italic, names) == head + tail);
        match &toks[i] {
            Token::Bold => {
                out.append(if bold {
                    "</b>"
                } else {
                    "<b>"
                });
                bold = !bold;
            },
            Token::Italic => {
                out.append(if italic {
                    "</i>"
                } else {
                    "<i>"
                });
                italic = !italic;
            },
            Token::Channel(id) => {
                match client.get_channel_name(id) {
                    Ok(name) => {
                        out.append("<span class=\"ping\">#");
                        out.append(name.as_str());
                        out.append("</span>");
                        assert(out@ =~= before + head);
                    },
                    Err(l) => {
                        return Err(l);
                    },
                }
            },
            Token::User(id) => {
                match client.get_nickname(id) {
                    Ok(name) => {
                        out.append("<span class=\"ping\">@");
                        out.append(name.as_str());
                        out.append("</span>");
                        assert(out@ =~= before + head);
                    },
                    Err(l) => {
                        return Err(l);
                    },
                }
            },
            Token::Break => {
                out.append("<br>");
            },
            Token::Char(c) => {
                out.push(*c);
                assert(out@ =~= before + head);
            },
        }
        assert(before + (head + tail) =~= out@ + tail);
        i = i + 1;
    }
    assert(all.skip(i as int) =~= Seq::<TokenView>::empty());
    assert(out@ + Seq::<char>::empty() =~= out@);
    Ok(out)
}

/// Renders message text as markup, with the names that `client` has
/// resolved; or returns the first mention in the text whose name is not
/// resolved yet.
pub fn format_content(client: &LawsClient, content: &str) -> (r: Result<String, Lookup>)
    ensures
        match r {
            Ok(s) => missing(tokens(content@), client@) is None && s@ == markup(
                tokens(content@),
                false,
                false,
                client@,
            ),
            Err(l) => missing(tokens(content@), client@) == Some(l@),
        },
{
    let toks = lex(content);
    render(client, &toks)
}

} // verus!
