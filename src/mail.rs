//! Texts for handing a draft mail to the desktop mail client.

use vstd::prelude::*;

verus! {

/// Every line break (`\r\n`, a lone `\r` or a lone `\n`) written as `\r\n`.
pub open spec fn crlf_normalized(s: Seq<char>) -> Seq<char>
    decreases s.len(),
{
    if s.len() == 0 {
        s
    } else if s[0] == '\r' && s.len() > 1 && s[1] == '\n' {
        seq!['\r', '\n'] + crlf_normalized(s.subrange(2, s.len() as int))
    } else if s[0] == '\r' || s[0] == '\n' {
        seq!['\r', '\n'] + crlf_normalized(s.drop_first())
    } else {
        seq![s[0]] + crlf_normalized(s.drop_first())
    }
}

/// Writes every line break of a mail body as `\r\n`, which mail clients
/// keep where they may drop a lone `\n`.
pub fn normalize_body(body: &str) -> (r: String)
    ensures
        r@ == crlf_normalized(body@),
{
    proof {
        reveal_strlit("\r\n");
    }
    let n = body.unicode_len();
    let mut out = String::new();
    let mut i: usize = 0;
    assert(body@.subrange(0, n as int) == body@);
    assert(out@ + crlf_normalized(body@) =~= crlf_normalized(body@));
    while i < n
        invariant
            i <= n,
            n == body@.len(),
            out@ + crlf_normalized(body@.subrange(i as int, n as int)) == crlf_normalized(body@),
        decreases n - i,
    {
        proof {
            reveal_strlit("\r\n");
        }
        let ghost rest = body@.subrange(i as int, n as int);
        let ghost before = out@;
        let c = body.get_char(i);
        assert(rest[0] == c);
        if c == '\r' && i + 1 < n && body.get_char(i + 1) == '\n' {
            assert(rest[1] == '\n');
            assert(rest.subrange(2, rest.len() as int) == body@.subrange(i + 2, n as int));
            out.append("\r\n");
            assert(out@ + crlf_normalized(body@.subrange(i + 2, n as int)) =~= before + crlf_normalized(rest));
            i = i + 2;
        } else if c == '\r' || c == '\n' {
            assert(rest.drop_first() == body@.subrange(i + 1, n as int));
            out.append("\r\n");
            assert(out@ + crlf_normalized(body@.subrange(i + 1, n as int)) =~= before + crlf_normalized(rest));
            i = i + 1;
        } else {
            assert(rest.drop_first() == body@.subrange(i + 1, n as int));
            out.append(body.substring_char(i, i + 1));
            assert(out@ + crlf_normalized(body@.subrange(i + 1, n as int)) =~= before + crlf_normalized(rest));
            i = i + 1;
        }
    }
    assert(body@.subrange(n as int, n as int) =~= Seq::<char>::empty());
    assert(out@ + Seq::<char>::empty() =~= out@);
    out
}

/// A text with each `'` doubled, as a single-quoted PowerShell string needs.
pub open spec fn quotes_doubled(s: Seq<char>) -> Seq<char>
    decreases s.len(),
{
    if s.len() == 0 {
        s
    } else if s.last() == '\'' {
        quotes_doubled(s.drop_last()) + seq!['\'', '\'']
    } else {
        quotes_doubled(s.drop_last()).push(s.last())
    }
}

/// The PowerShell command that opens `target` with its registered handler.
pub open spec fn start_process_command(target: Seq<char>) -> Seq<char> {
    "Start-Process '"@ + quotes_doubled(target) + "'"@
}

/// Builds the PowerShell command that opens `target`.
pub fn start_process(target: &str) -> (r: String)
    ensures
        r@ == start_process_command(target@),
{
    proof {
        reveal_strlit("''");
    }
    let n = target.unicode_len();
    let mut quoted = String::new();
    let mut i: usize = 0;
    while i < n
        invariant
            i <= n,
            n == target@.len(),
            quoted@ == quotes_doubled(target@.subrange(0, i as int)),
        decreases n - i,
    {
        proof {
            reveal_strlit("''");
        }
        assert(target@.subrange(0, i + 1).drop_last() == target@.subrange(0, i as int));
        assert(target@.subrange(0, i + 1).last() == target@[i as int]);
        let ghost before = quoted@;
        if target.get_char(i) == '\'' {
            quoted.append("''");
        } else {
            quoted.append(target.substring_char(i, i + 1));
            assert(quoted@ =~= before.push(target@[i as int]));
        }
        i = i + 1;
    }
    assert(target@.subrange(0, n as int) == target@);
    let mut cmd = String::from_str("Start-Process '");
    cmd.append(quoted.as_str());
    cmd.append("'");
    cmd
}

/// What `urlencoding::encode` makes of a text: every byte of its UTF-8 form
/// but ASCII letters, digits and `-_.~` percent-encoded.
pub uninterp spec fn url_encoded(s: Seq<char>) -> Seq<char>;

/// Relies on `urlencoding::encode` for percent-encoding: each character
/// stays one character or becomes three per byte of its UTF-8 form.
#[verifier::external_body]
fn url_encode(s: &str) -> (r: String)
    ensures
        r@ == url_encoded(s@),
        r@.len() >= s@.len(),
{
    urlencoding::encode(s).into_owned()
}

/// The `mailto:` link of a draft, every part percent-encoded.
pub open spec fn mailto_link(to: Seq<char>, subject: Seq<char>, body: Seq<char>) -> Seq<char> {
    "mailto:"@ + url_encoded(to) + "?subject="@ + url_encoded(subject) + "&body="@ + url_encoded(body)
}

/// Builds the `mailto:` link of a draft.
pub fn mailto_url(to: &str, subject: &str, body: &str) -> (r: String)
    ensures
        r@ == mailto_link(to@, subject@, body@),
{
    let mut link = String::from_str("mailto:");
    let t = url_encode(to);
    link.append(t.as_str());
    link.append("?subject=");
    let s = url_encode(subject);
    link.append(s.as_str());
    link.append("&body=");
    let b = url_encode(body);
    link.append(b.as_str());
    link
}

/// The `mailto:` argument for the desktop client's command line: the
/// address as given (left out when empty), subject and body encoded.
pub open spec fn client_mailto_arg(to: Seq<char>, subject: Seq<char>, body: Seq<char>) -> Seq<char> {
    "mailto:"@ + to + "?subject="@ + url_encoded(subject) + "&body="@ + url_encoded(body)
}

/// Builds the `mailto:` argument for the desktop client's command line.
pub fn client_mailto(to: &str, subject: &str, body: &str) -> (r: String)
    ensures
        r@ == client_mailto_arg(to@, subject@, body@),
{
    let mut link = String::from_str("mailto:");
    link.append(to);
    link.append("?subject=");
    let s = url_encode(subject);
    link.append(s.as_str());
    link.append("&body=");
    let b = url_encode(body);
    link.append(b.as_str());
    link
}

/// A text inside a VBScript string literal: each `"` doubled.
pub open spec fn vbs_quoted(s: Seq<char>) -> Seq<char>
    decreases s.len(),
{
    if s.len() == 0 {
        s
    } else if s.last() == '"' {
        vbs_quoted(s.drop_last()) + seq!['"', '"']
    } else {
        vbs_quoted(s.drop_last()).push(s.last())
    }
}

/// The VBScript text that joins a line break into a string literal.
pub open spec fn vbs_line_break() -> Seq<char> {
    "\" & vbCrLf & \""@
}

/// A mail body inside a VBScript string literal: each `"` doubled, each
/// `\r\n` or lone `\n` written as a `vbCrLf` join.
pub open spec fn vbs_body(s: Seq<char>) -> Seq<char>
    decreases s.len(),
{
    if s.len() == 0 {
        s
    } else if s[0] == '\r' && s.len() > 1 && s[1] == '\n' {
        vbs_line_break() + vbs_body(s.subrange(2, s.len() as int))
    } else if s[0] == '\n' {
        vbs_line_break() + vbs_body(s.drop_first())
    } else if s[0] == '"' {
        seq!['"', '"'] + vbs_body(s.drop_first())
    } else {
        seq![s[0]] + vbs_body(s.drop_first())
    }
}

fn vbs_quote(s: &str) -> (r: String)
    ensures
        r@ == vbs_quoted(s@),
{
    let n = s.unicode_len();
    let mut out = String::new();
    let mut i: usize = 0;
    while i < n
        invariant
            i <= n,
            n == s@.len(),
            out@ == vbs_quoted(s@.subrange(0, i as int)),
        decreases n - i,
    {
        proof {
            reveal_strlit("\"\"");
        }
        assert(s@.subrange(0, i + 1).drop_last() == s@.subrange(0, i as int));
        assert(s@.subrange(0, i + 1).last() == s@[i as int]);
        let ghost before = out@;
        if s.get_char(i) == '"' {
            out.append("\"\"");
        } else {
            out.append(s.substring_char(i, i + 1));
            assert(out@ =~= before.push(s@[i as int]));
        }
        i = i + 1;
    }
    assert(s@.subrange(0, n as int) == s@);
    out
}

fn vbs_escape_body(body: &str) -> (r: String)
    ensures
        r@ == vbs_body(body@),
{
    let n = body.unicode_len();
    let mut out = String::new();
    let mut i: usize = 0;
    assert(body@.subrange(0, n as int) == body@);
    assert(out@ + vbs_body(body@) =~= vbs_body(body@));
    while i < n
        invariant
            i <= n,
            n == body@.len(),
            out@ + vbs_body(body@.subrange(i as int, n as int)) == vbs_body(body@),
        decreases n - i,
    {
        proof {
            reveal_strlit("\" & vbCrLf & \"");
            reveal_strlit("\"\"");
        }
        let ghost rest = body@.subrange(i as int, n as int);
        let ghost before = out@;
        let c = body.get_char(i);
        assert(rest[0] == c);
        if c == '\r' && i + 1 < n && body.get_char(i + 1) == '\n' {
            assert(rest[1] == '\n');
            assert(rest.subrange(2, rest.len() as int) == body@.subrange(i + 2, n as int));
            out.append("\" & vbCrLf & \"");
            assert(out@ + vbs_body(body@.subrange(i + 2, n as int)) =~= before + vbs_body(rest));
            i = i + 2;
        } else {
            assert(rest.drop_first() == body@.subrange(i + 1, n as int));
            if c == '\n' {
                out.append("\" & vbCrLf & \"");
            } else if c == '"' {
                out.append("\"\"");
            } else {
                out.append(body.substring_char(i, i + 1));
            }
            assert(out@ + vbs_body(body@.subrange(i + 1, n as int)) =~= before + vbs_body(rest));
            i = i + 1;
        }
    }
    assert(body@.subrange(n as int, n as int) =~= Seq::<char>::empty());
    assert(out@ + Seq::<char>::empty() =~= out@);
    out
}

/// The script's text before the address.
pub const VBS_HEAD: &'static str = "On Error Resume Next\nSet outlook = CreateObject(\"Outlook.Application\")\nIf Err.Number <> 0 Then\n    WScript.StdErr.Write \"CreateObject failed: \" & Err.Description\n    WScript.Quit 1\nEnd If\nSet mail = outlook.CreateItem(0)\nIf Err.Number <> 0 Then\n    WScript.StdErr.Write \"CreateItem failed: \" & Err.Description\n    WScript.Quit 1\nEnd If\nmail.To = \"";

/// The script's text after the body.
pub const VBS_TAIL: &'static str = "\"\nmail.Display\nIf Err.Number <> 0 Then\n    WScript.StdErr.Write \"Display failed: \" & Err.Description\n    WScript.Quit 1\nEnd If\n";

/// The VBScript that opens a draft in the classic desktop client.
pub open spec fn draft_script_text(to: Seq<char>, subject: Seq<char>, body: Seq<char>) -> Seq<char> {
    VBS_HEAD@ + vbs_quoted(to) + "\"\nmail.Subject = \""@ + vbs_quoted(subject) + "\"\nmail.Body = \""@
        + vbs_body(body) + VBS_TAIL@
}

/// Builds the VBScript that opens a draft in the classic desktop client.
pub fn draft_script(to: &str, subject: &str, body: &str) -> (r: String)
    ensures
        r@ == draft_script_text(to@, subject@, body@),
{
    let mut script = String::from_str(VBS_HEAD);
    let t = vbs_quote(to);
    script.append(t.as_str());
    script.append("\"\nmail.Subject = \"");
    let s = vbs_quote(subject);
    script.append(s.as_str());
    script.append("\"\nmail.Body = \"");
    let b = vbs_escape_body(body);
    script.append(b.as_str());
    script.append(VBS_TAIL);
    script
}

} // verus!
