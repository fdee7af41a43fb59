//! The candidate model: a selectable choice is either a program to launch or
//! an open window to focus. Each candidate exposes a plain matching key, a
//! styled display string and a preview string for the interactive selector,
//! and maps to at most one window-manager command.

use vstd::prelude::*;

verus! {

/// One selectable choice: launch a program by name, or focus an open window
/// identified by an optional application id and an optional title. A window
/// without a title can still be shown but has no focus command.
#[derive(Debug, Clone, PartialEq, Eq)]
pub enum SwitchType {
    Launch(String),
    Focus(Option<String>, Option<String>),
}

/// The characters the window-manager command language treats as syntax
/// inside a title criterion.
pub open spec fn is_special(c: char) -> bool {
    c == '(' || c == ')' || c == ':'
}

/// How one title character appears in a command: special characters gain a
/// preceding backslash, all others pass through.
pub open spec fn escape_char(c: char) -> Seq<char> {
    if is_special(c) {
        seq!['\\', c]
    } else {
        seq![c]
    }
}

/// A title with every special character backslash-escaped.
pub open spec fn escape_title(s: Seq<char>) -> Seq<char>
    decreases s.len(),
{
    if s.len() == 0 {
        Seq::empty()
    } else {
        escape_char(s[0]) + escape_title(s.drop_first())
    }
}

/// Escaping a sequence extended by one character appends that character's
/// escape.
pub proof fn lemma_escape_push(s: Seq<char>, c: char)
    ensures
        escape_title(s.push(c)) == escape_title(s) + escape_char(c),
    decreases s.len(),
{
    if s.len() == 0 {
        let e = Seq::<char>::empty();
        assert(s.push(c).drop_first() =~= e);
        assert(s.push(c)[0] == c);
        assert(escape_title(s.push(c)) == escape_char(c) + escape_title(e));
        assert(escape_title(e) =~= e);
        assert(escape_char(c) + escape_title(e) =~= escape_char(c));
        assert(s =~= e);
        assert(escape_title(s) + escape_char(c) =~= escape_char(c));
    } else {
        assert(s.push(c)[0] == s[0]);
        assert(s.push(c).drop_first() =~= s.drop_first().push(c));
        lemma_escape_push(s.drop_first(), c);
        assert(escape_title(s.push(c)) == escape_char(s[0]) + (escape_title(s.drop_first())
            + escape_char(c)));
        assert(escape_char(s[0]) + (escape_title(s.drop_first()) + escape_char(c)) =~= (escape_char(
            s[0],
        ) + escape_title(s.drop_first())) + escape_char(c));
        assert(escape_title(s) == escape_char(s[0]) + escape_title(s.drop_first()));
    }
}

/// In an escaped title every special character is immediately preceded by a
/// backslash: no parenthesis or colon of the original title reaches the
/// command language unescaped.
pub proof fn lemma_escape_escapes(s: Seq<char>)
    ensures
        forall|i: int|
            0 <= i < escape_title(s).len() && is_special(#[trigger] escape_title(s)[i]) ==> i > 0
                && escape_title(s)[i - 1] == '\\',
    decreases s.len(),
{
    if s.len() > 0 {
        lemma_escape_escapes(s.drop_first());
        let head = escape_char(s[0]);
        let rest = escape_title(s.drop_first());
        assert(escape_title(s) == head + rest);
        assert forall|i: int|
            0 <= i < escape_title(s).len() && is_special(
                escape_title(s)[i],
            ) implies i > 0 && escape_title(s)[i - 1] == '\\' by {
            let t = escape_title(s);
            if i < head.len() {
                if is_special(s[0]) {
                    assert(t[0] == '\\');
                    assert(!is_special(t[0]));
                    assert(i == 1);
                } else {
                    assert(t[i] == s[0]);
                }
            } else {
                let j = i - head.len();
                assert(t[i] == rest[j]);
                assert(j > 0 && rest[j - 1] == '\\');
                assert(t[i - 1] == rest[j - 1]);
            }
        }
    }
}

/// Builds the escaped form of a title.
pub fn escape_title_exec(title: &str) -> (r: String)
    ensures
        r@ == escape_title(title@),
{
    let n = title.unicode_len();
    let mut out = String::new();
    let mut i: usize = 0;
    while i < n
        invariant
            i <= n,
            n == title@.len(),
            out@ == escape_title(title@.take(i as int)),
        decreases n - i,
    {
        proof {
            reveal_strlit("\\");
        }
        let c = title.get_char(i);
        let ghost before = out@;
        let piece = title.substring_char(i, i + 1);
        assert(piece@ =~= seq![title@[i as int]]);
        if c == '(' || c == ')' || c == ':' {
            out.append("\\");
        }
        out.append(piece);
        proof {
            lemma_escape_push(title@.take(i as int), c);
            assert(title@.take(i + 1) =~= title@.take(i as int).push(c));
            if is_special(c) {
                assert(out@ =~= before + seq!['\\', c]);
            } else {
                assert(out@ =~= before + seq![c]);
            }
        }
        i = i + 1;
    }
    proof {
        assert(title@.take(n as int) =~= title@);
    }
    out
}

/// The view of an optional string.
pub open spec fn view_opt(o: Option<String>) -> Option<Seq<char>> {
    match o {
        Some(s) => Some(s@),
        None => None,
    }
}

/// The plain matching key the selector fuzzy-matches against.
pub open spec fn spec_text(c: SwitchType) -> Seq<char> {
    match c {
        SwitchType::Launch(name) => name@,
        SwitchType::Focus(_, Some(title)) => title@,
        SwitchType::Focus(_, None) => " NONE "@,
    }
}

/// The styled display line: launches in green, focusable windows underlined
/// in blue (with the application id when present), placeholder otherwise.
pub open spec fn spec_display(c: SwitchType) -> Seq<char> {
    match c {
        SwitchType::Launch(name) => "\u{1b}[32m"@ + name@ + "\u{1b}[m"@,
        SwitchType::Focus(Some(app), Some(title)) => "\u{1b}[4m\u{1b}[34m"@ + app@ + " - "@
            + title@ + "\u{1b}[m"@,
        SwitchType::Focus(None, Some(title)) => "\u{1b}[4m\u{1b}[34m"@ + title@ + "\u{1b}[m"@,
        SwitchType::Focus(_, None) => " NONE "@,
    }
}

/// The preview pane text: the candidate's kind, then its payload.
pub open spec fn spec_preview(c: SwitchType) -> Seq<char> {
    match c {
        SwitchType::Launch(name) => "\u{1b}[4m\u{1b}[32mLaunch:\u{1b}[m\n"@ + name@,
        SwitchType::Focus(_, Some(title)) => "\u{1b}[4m\u{1b}[34mFocus:\u{1b}[m\n"@ + title@,
        SwitchType::Focus(_, None) => " NONE "@,
    }
}

/// The window-manager command a candidate dispatches to: `exec` with the
/// program name, a title-criterion focus command with the escaped title, or
/// nothing for a window without a title.
pub open spec fn spec_command(c: SwitchType) -> Option<Seq<char>> {
    match c {
        SwitchType::Launch(name) => Some("exec "@ + name@),
        SwitchType::Focus(_, Some(title)) => Some(
            "[title=\""@ + escape_title(title@) + "\"] focus"@,
        ),
        SwitchType::Focus(_, None) => None,
    }
}

impl SwitchType {
    /// The plain matching key.
    pub fn text(&self) -> (r: String)
        ensures
            r@ == spec_text(*self),
    {
        match self {
            SwitchType::Launch(name) => name.clone(),
            SwitchType::Focus(_, Some(title)) => title.clone(),
            SwitchType::Focus(_, None) => String::from_str(" NONE "),
        }
    }

    /// The styled display line.
    pub fn display(&self) -> (r: String)
        ensures
            r@ == spec_display(*self),
    {
        match self {
            SwitchType::Launch(name) => {
                let mut s = String::from_str("\u{1b}[32m");
                s.append(name.as_str());
                s.append("\u{1b}[m");
                s
            },
            SwitchType::Focus(Some(app), Some(title)) => {
                let mut s = String::from_str("\u{1b}[4m\u{1b}[34m");
                s.append(app.as_str());
                s.append(" - ");
                s.append(title.as_str());
                s.append("\u{1b}[m");
                s
            },
            SwitchType::Focus(None, Some(title)) => {
                let mut s = String::from_str("\u{1b}[4m\u{1b}[34m");
                s.append(title.as_str());
                s.append("\u{1b}[m");
                s
            },
            SwitchType::Focus(_, None) => String::from_str(" NONE "),
        }
    }

    /// The preview pane text.
    pub fn preview(&self) -> (r: String)
        ensures
            r@ == spec_preview(*self),
    {
        match self {
            SwitchType::Launch(name) => {
                let mut s = String::from_str("\u{1b}[4m\u{1b}[32mLaunch:\u{1b}[m\n");
                s.append(name.as_str());
                s
            },
            SwitchType::Focus(_, Some(title)) => {
                let mut s = String::from_str("\u{1b}[4m\u{1b}[34mFocus:\u{1b}[m\n");
                s.append(title.as_str());
                s
            },
            SwitchType::Focus(_, None) => String::from_str(" NONE "),
        }
    }

    /// The command this candidate dispatches, if any: `None` exactly for a
    /// window without a title, which is a deliberate no-op.
    pub fn command(&self) -> (r: Option<String>)
        ensures
            view_opt(r) == spec_command(*self),
            r is None <==> (self matches SwitchType::Focus(_, None)),
    {
        match self {
            SwitchType::Launch(name) => {
                let mut s = String::from_str("exec ");
                s.append(name.as_str());
                Some(s)
            },
            SwitchType::Focus(_, Some(title)) => {
                let mut s = String::from_str("[title=\"");
                let escaped = escape_title_exec(title.as_str());
                s.append(escaped.as_str());
                s.append("\"] focus");
                Some(s)
            },
            SwitchType::Focus(_, None) => None,
        }
    }
}

} // verus!
