//! The mathematical model of the configuration document format.
//!
//! A configuration document is a TOML document restricted to the shape the
//! library persists: blank and comment lines, `[[repository]]` table
//! headers, `key = "value"` pairs whose keys are the repository fields, and
//! the single top-level assignment `repository = []` for an explicitly
//! empty repository list. A comment may follow a value or a header on the
//! same line. Values are basic strings with the escapes `\"`, `\\`, `\n`,
//! `\r`, `\t`, four-digit `\u` and eight-digit `\U`, or literal
//! (single-quoted) strings.
//! As TOML requires, control characters other than tab never appear
//! unescaped in a value or a comment, and a carriage return is valid only
//! as part of a CRLF line ending.
//!
//! The grammar is defined operationally: [`step`] consumes one character
//! of the document and [`parse_spec`] folds it over the whole text. The
//! serializer [`config_toml`] produces the canonical form of a
//! configuration, and [`lemma_round_trip`] proves that parsing a
//! serialized configuration gives that configuration back.

use vstd::prelude::*;

verus! {

/// The mathematical value of one tracked repository: its mandatory name
/// and its optional attributes.
#[verifier::ext_equal]
pub struct RepoView {
    /// The human-readable identifier.
    pub name: Seq<char>,
    /// The cosmetic description.
    pub description: Option<Seq<char>>,
    /// The URL of the remote.
    pub url: Option<Seq<char>>,
    /// The URL of an upstream fork.
    pub upstream: Option<Seq<char>>,
    /// The primary tracked branch.
    pub branch: Option<Seq<char>>,
    /// A subpath of interest within the repository.
    pub path: Option<Seq<char>>,
}

/// The mathematical value of a configuration: either the repository field
/// is absent, or it holds a sequence of repository records.
pub type ConfigView = Option<Seq<RepoView>>;

/// A repository block under construction while its lines are read: every
/// field, the name included, may still be absent.
#[verifier::ext_equal]
pub struct BlockAcc {
    /// The name, once its line was read.
    pub name: Option<Seq<char>>,
    /// The description, once its line was read.
    pub description: Option<Seq<char>>,
    /// The URL, once its line was read.
    pub url: Option<Seq<char>>,
    /// The upstream URL, once its line was read.
    pub upstream: Option<Seq<char>>,
    /// The branch, once its line was read.
    pub branch: Option<Seq<char>>,
    /// The subpath, once its line was read.
    pub path: Option<Seq<char>>,
}

/// A block with no field read yet.
pub open spec fn empty_block() -> BlockAcc {
    BlockAcc {
        name: None,
        description: None,
        url: None,
        upstream: None,
        branch: None,
        path: None,
    }
}

/// The document-level parser state: the closed repository records, whether
/// the repository field was frozen by `repository = []`, and the block
/// currently being read.
#[verifier::ext_equal]
pub struct DocSt {
    /// The repository field as read so far; `None` while no repository
    /// construct has appeared.
    pub repos: Option<Seq<RepoView>>,
    /// True after `repository = []`: no table may extend the field.
    pub frozen: bool,
    /// The open block, from its `[[repository]]` header until the next
    /// header or the end of the document.
    pub cur: Option<BlockAcc>,
}

/// The position within the current line.
#[verifier::ext_equal]
pub enum LineSt {
    /// At the start of a line, or after leading whitespace.
    Start,
    /// Inside a comment, to be skipped until the end of the line.
    Comment,
    /// Reading a key; the characters read so far.
    Ident(Seq<char>),
    /// After a key and whitespace, before `=`.
    AfterIdent(Seq<char>),
    /// After `=`, before the value.
    AfterEq(Seq<char>),
    /// After `[` of an empty-array value, before `]`.
    ArrOpen,
    /// Inside a basic (double-quoted) value: the key, and the value read
    /// so far.
    Str(Seq<char>, Seq<char>),
    /// After a backslash inside a basic value.
    StrEsc(Seq<char>, Seq<char>),
    /// Inside a four-digit `\u` escape of a basic value: the key, the
    /// value read so far, the number of hex digits read, and their
    /// accumulated value.
    StrUni(Seq<char>, Seq<char>, int, int),
    /// Inside an eight-digit `\U` escape of a basic value: the key, the
    /// value read so far, the number of hex digits read, and their
    /// accumulated value.
    StrUni8(Seq<char>, Seq<char>, int, int),
    /// Inside a literal (single-quoted) value: the key, and the value
    /// read so far.
    Lit(Seq<char>, Seq<char>),
    /// Matching the table header; the number of header characters matched.
    Header(int),
    /// After a complete value or header, before the end of the line.
    AfterVal,
    /// After a carriage return, which is valid only when a line feed
    /// follows at once.
    SeenCr,
}

/// The whole parser state. When `ok` is false the document is rejected;
/// the error state is canonical and absorbing.
#[verifier::ext_equal]
pub struct ParseSt {
    /// False once the document is rejected.
    pub ok: bool,
    /// The document-level state.
    pub doc: DocSt,
    /// The position within the current line.
    pub line: LineSt,
}

/// The canonical rejected state.
pub open spec fn st_err() -> ParseSt {
    ParseSt {
        ok: false,
        doc: DocSt { repos: None, frozen: false, cur: None },
        line: LineSt::Start,
    }
}

/// The state before any character is read.
pub open spec fn init_st() -> ParseSt {
    ParseSt {
        ok: true,
        doc: DocSt { repos: None, frozen: false, cur: None },
        line: LineSt::Start,
    }
}

/// Line whitespace: space and tab. A carriage return is not whitespace;
/// it is valid only immediately before a line feed.
pub open spec fn is_ws(c: char) -> bool {
    c == ' ' || c == '\t'
}

/// A key character: an ASCII lowercase letter.
pub open spec fn is_lower(c: char) -> bool {
    97 <= (c as u32) && (c as u32) <= 122
}

/// A character valid unescaped inside a quoted value or a comment: tab,
/// or anything that is not a control character.
pub open spec fn is_value_char(c: char) -> bool {
    c == '\t' || ((c as u32) >= 0x20 && (c as u32) != 0x7F)
}

/// The value of a hex digit, or -1 for any other character.
pub open spec fn hex_val(c: char) -> int {
    let u = (c as u32) as int;
    if 48 <= u <= 57 {
        u - 48
    } else if 97 <= u <= 102 {
        u - 87
    } else if 65 <= u <= 70 {
        u - 55
    } else {
        -1
    }
}

/// Whether a four-digit code point is a Unicode scalar value.
pub open spec fn valid_scalar4(v: int) -> bool {
    (0 <= v < 0xD800) || (0xE000 <= v <= 0xFFFF)
}

/// Whether a code point is a Unicode scalar value.
pub open spec fn valid_scalar(v: int) -> bool {
    (0 <= v < 0xD800) || (0xE000 <= v <= 0x10FFFF)
}

/// The character with the given code point.
pub open spec fn char_of4(v: int) -> char {
    (v as u32) as char
}

/// The lowercase hex digit for a value below sixteen.
pub open spec fn hexc(d: int) -> char {
    if d == 0 {
        '0'
    } else if d == 1 {
        '1'
    } else if d == 2 {
        '2'
    } else if d == 3 {
        '3'
    } else if d == 4 {
        '4'
    } else if d == 5 {
        '5'
    } else if d == 6 {
        '6'
    } else if d == 7 {
        '7'
    } else if d == 8 {
        '8'
    } else if d == 9 {
        '9'
    } else if d == 10 {
        'a'
    } else if d == 11 {
        'b'
    } else if d == 12 {
        'c'
    } else if d == 13 {
        'd'
    } else if d == 14 {
        'e'
    } else {
        'f'
    }
}

/// The table header the parser matches character by character.
pub open spec fn header_pat() -> Seq<char> {
    "[[repository]]"@
}

/// Records a completed `key = "value"` line in the open block. Rejects an
/// unknown key and a key whose field was already set.
pub open spec fn assign_field(b: BlockAcc, id: Seq<char>, v: Seq<char>) -> Option<BlockAcc> {
    if id == "name"@ {
        if b.name is None {
            Some(BlockAcc { name: Some(v), ..b })
        } else {
            None
        }
    } else if id == "description"@ {
        if b.description is None {
            Some(BlockAcc { description: Some(v), ..b })
        } else {
            None
        }
    } else if id == "url"@ {
        if b.url is None {
            Some(BlockAcc { url: Some(v), ..b })
        } else {
            None
        }
    } else if id == "upstream"@ {
        if b.upstream is None {
            Some(BlockAcc { upstream: Some(v), ..b })
        } else {
            None
        }
    } else if id == "branch"@ {
        if b.branch is None {
            Some(BlockAcc { branch: Some(v), ..b })
        } else {
            None
        }
    } else if id == "path"@ {
        if b.path is None {
            Some(BlockAcc { path: Some(v), ..b })
        } else {
            None
        }
    } else {
        None
    }
}

/// Closes the open block, if any: its name must have been set, and the
/// completed record is appended to the repository field.
pub open spec fn close_block(d: DocSt) -> Option<DocSt> {
    match d.cur {
        None => Some(d),
        Some(b) => match b.name {
            None => None,
            Some(n) => {
                let r = RepoView {
                    name: n,
                    description: b.description,
                    url: b.url,
                    upstream: b.upstream,
                    branch: b.branch,
                    path: b.path,
                };
                let rs = match d.repos {
                    None => Seq::<RepoView>::empty(),
                    Some(s) => s,
                };
                Some(DocSt { repos: Some(rs.push(r)), frozen: d.frozen, cur: None })
            },
        },
    }
}

/// Handles a complete `[[repository]]` header: closes the open block and
/// opens a fresh one. Rejected when the field was frozen by
/// `repository = []`.
pub open spec fn open_block(d: DocSt) -> Option<DocSt> {
    if d.frozen {
        None
    } else {
        match close_block(d) {
            None => None,
            Some(d2) => Some(DocSt { repos: d2.repos, frozen: false, cur: Some(empty_block()) }),
        }
    }
}

/// Handles `repository = []`: only valid while no repository construct has
/// appeared, and freezes the field as an explicitly empty list.
pub open spec fn set_empty_array(d: DocSt) -> Option<DocSt> {
    if d.repos is None && d.cur is None {
        Some(DocSt { repos: Some(Seq::<RepoView>::empty()), frozen: true, cur: None })
    } else {
        None
    }
}

/// Consumes one character of the document.
pub open spec fn step(st: ParseSt, c: char) -> ParseSt {
    if !st.ok {
        st_err()
    } else {
        match st.line {
            LineSt::Start => {
                if c == '\n' || is_ws(c) {
                    st
                } else if c == '\r' {
                    ParseSt { line: LineSt::SeenCr, ..st }
                } else if c == '#' {
                    ParseSt { line: LineSt::Comment, ..st }
                } else if c == '[' {
                    ParseSt { line: LineSt::Header(1), ..st }
                } else if is_lower(c) {
                    ParseSt { line: LineSt::Ident(seq![c]), ..st }
                } else {
                    st_err()
                }
            },
            LineSt::Comment => {
                if c == '\n' {
                    ParseSt { line: LineSt::Start, ..st }
                } else if c == '\r' {
                    ParseSt { line: LineSt::SeenCr, ..st }
                } else if is_value_char(c) {
                    st
                } else {
                    st_err()
                }
            },
            LineSt::Ident(id) => {
                if is_lower(c) {
                    ParseSt { line: LineSt::Ident(id.push(c)), ..st }
                } else if c == '=' {
                    ParseSt { line: LineSt::AfterEq(id), ..st }
                } else if is_ws(c) {
                    ParseSt { line: LineSt::AfterIdent(id), ..st }
                } else {
                    st_err()
                }
            },
            LineSt::AfterIdent(id) => {
                if c == '=' {
                    ParseSt { line: LineSt::AfterEq(id), ..st }
                } else if is_ws(c) {
                    st
                } else {
                    st_err()
                }
            },
            LineSt::AfterEq(id) => {
                if c == '"' {
                    ParseSt { line: LineSt::Str(id, Seq::<char>::empty()), ..st }
                } else if c == '\'' {
                    ParseSt { line: LineSt::Lit(id, Seq::<char>::empty()), ..st }
                } else if c == '[' {
                    if id == "repository"@ {
                        ParseSt { line: LineSt::ArrOpen, ..st }
                    } else {
                        st_err()
                    }
                } else if is_ws(c) {
                    st
                } else {
                    st_err()
                }
            },
            LineSt::ArrOpen => {
                if c == ']' {
                    match set_empty_array(st.doc) {
                        None => st_err(),
                        Some(d) => ParseSt { ok: true, doc: d, line: LineSt::AfterVal },
                    }
                } else if is_ws(c) {
                    st
                } else {
                    st_err()
                }
            },
            LineSt::Str(id, acc) => {
                if c == '"' {
                    match st.doc.cur {
                        None => st_err(),
                        Some(b) => match assign_field(b, id, acc) {
                            None => st_err(),
                            Some(b2) => ParseSt {
                                ok: true,
                                doc: DocSt { cur: Some(b2), ..st.doc },
                                line: LineSt::AfterVal,
                            },
                        },
                    }
                } else if c == '\\' {
                    ParseSt { line: LineSt::StrEsc(id, acc), ..st }
                } else if is_value_char(c) {
                    ParseSt { line: LineSt::Str(id, acc.push(c)), ..st }
                } else {
                    st_err()
                }
            },
            LineSt::StrEsc(id, acc) => {
                if c == 'n' {
                    ParseSt { line: LineSt::Str(id, acc.push('\n')), ..st }
                } else if c == 't' {
                    ParseSt { line: LineSt::Str(id, acc.push('\t')), ..st }
                } else if c == 'r' {
                    ParseSt { line: LineSt::Str(id, acc.push('\r')), ..st }
                } else if c == '"' {
                    ParseSt { line: LineSt::Str(id, acc.push('"')), ..st }
                } else if c == '\\' {
                    ParseSt { line: LineSt::Str(id, acc.push('\\')), ..st }
                } else if c == 'u' {
                    ParseSt { line: LineSt::StrUni(id, acc, 0, 0), ..st }
                } else if c == 'U' {
                    ParseSt { line: LineSt::StrUni8(id, acc, 0, 0), ..st }
                } else {
                    st_err()
                }
            },
            LineSt::StrUni(id, acc, k, val) => {
                if 0 <= k < 4 && hex_val(c) >= 0 {
                    let v2 = val * 16 + hex_val(c);
                    if k == 3 {
                        if valid_scalar4(v2) {
                            ParseSt { line: LineSt::Str(id, acc.push(char_of4(v2))), ..st }
                        } else {
                            st_err()
                        }
                    } else {
                        ParseSt { line: LineSt::StrUni(id, acc, k + 1, v2), ..st }
                    }
                } else {
                    st_err()
                }
            },
            LineSt::StrUni8(id, acc, k, val) => {
                if 0 <= k < 8 && hex_val(c) >= 0 {
                    let v2 = val * 16 + hex_val(c);
                    if k == 7 {
                        if valid_scalar(v2) {
                            ParseSt { line: LineSt::Str(id, acc.push(char_of4(v2))), ..st }
                        } else {
                            st_err()
                        }
                    } else {
                        ParseSt { line: LineSt::StrUni8(id, acc, k + 1, v2), ..st }
                    }
                } else {
                    st_err()
                }
            },
            LineSt::Lit(id, acc) => {
                if c == '\'' {
                    match st.doc.cur {
                        None => st_err(),
                        Some(b) => match assign_field(b, id, acc) {
                            None => st_err(),
                            Some(b2) => ParseSt {
                                ok: true,
                                doc: DocSt { cur: Some(b2), ..st.doc },
                                line: LineSt::AfterVal,
                            },
                        },
                    }
                } else if is_value_char(c) {
                    ParseSt { line: LineSt::Lit(id, acc.push(c)), ..st }
                } else {
                    st_err()
                }
            },
            LineSt::Header(k) => {
                if (k == 2 || k == 12) && is_ws(c) {
                    st
                } else if 1 <= k < 14 && c == header_pat()[k] {
                    if k == 13 {
                        match open_block(st.doc) {
                            None => st_err(),
                            Some(d) => ParseSt { ok: true, doc: d, line: LineSt::AfterVal },
                        }
                    } else {
                        ParseSt { line: LineSt::Header(k + 1), ..st }
                    }
                } else {
                    st_err()
                }
            },
            LineSt::AfterVal => {
                if c == '\n' {
                    ParseSt { line: LineSt::Start, ..st }
                } else if c == '\r' {
                    ParseSt { line: LineSt::SeenCr, ..st }
                } else if c == '#' {
                    ParseSt { line: LineSt::Comment, ..st }
                } else if is_ws(c) {
                    st
                } else {
                    st_err()
                }
            },
            LineSt::SeenCr => {
                if c == '\n' {
                    ParseSt { line: LineSt::Start, ..st }
                } else {
                    st_err()
                }
            },
        }
    }
}

/// Folds [`step`] over the first `j` characters of `s`, starting from `st`.
pub open spec fn scan(st: ParseSt, s: Seq<char>, j: int) -> ParseSt
    decreases j,
{
    if j <= 0 {
        st
    } else {
        step(scan(st, s, j - 1), s[j - 1])
    }
}

/// The parser state after the whole document.
pub open spec fn run(s: Seq<char>) -> ParseSt {
    scan(init_st(), s, s.len() as int)
}

/// The meaning of a document: the configuration it denotes, or `None`
/// when it is rejected. A virtual final newline terminates the last line,
/// and the block left open at the end of the document is closed; a
/// document ending in a bare carriage return is rejected rather than
/// completed.
pub open spec fn parse_spec(s: Seq<char>) -> Option<ConfigView> {
    let st0 = run(s);
    if st0.ok && st0.line is SeenCr {
        None
    } else {
        let st = step(st0, '\n');
        if !st.ok {
            None
        } else {
            match close_block(st.doc) {
                None => None,
                Some(d) => Some(d.repos),
            }
        }
    }
}

/// The escape of one character in a serialized value: the named escapes
/// for the common characters, the character itself where it is valid
/// unescaped, and a four-digit `\u` escape for the remaining control
/// characters.
pub open spec fn esc_char(c: char) -> Seq<char> {
    if c == '"' {
        seq!['\\', '"']
    } else if c == '\\' {
        seq!['\\', '\\']
    } else if c == '\n' {
        seq!['\\', 'n']
    } else if c == '\r' {
        seq!['\\', 'r']
    } else if c == '\t' {
        seq!['\\', 't']
    } else if is_value_char(c) {
        seq![c]
    } else {
        let v = (c as u32) as int;
        seq!['\\', 'u', hexc(v / 4096 % 16), hexc(v / 256 % 16), hexc(v / 16 % 16), hexc(v % 16)]
    }
}

/// The escaped form of a serialized value.
pub open spec fn esc_str(s: Seq<char>) -> Seq<char>
    decreases s.len(),
{
    if s.len() == 0 {
        Seq::<char>::empty()
    } else {
        esc_str(s.drop_last()) + esc_char(s.last())
    }
}

/// One serialized `key = "value"` line.
pub open spec fn field_line(key: Seq<char>, v: Seq<char>) -> Seq<char> {
    key + " = \""@ + esc_str(v) + "\"\n"@
}

/// A serialized field line for an optional attribute: nothing when the
/// attribute is absent.
pub open spec fn opt_field_line(key: Seq<char>, v: Option<Seq<char>>) -> Seq<char> {
    match v {
        None => Seq::<char>::empty(),
        Some(x) => field_line(key, x),
    }
}

/// The serialized form of one repository record: its header and its field
/// lines, in the fixed field order.
pub open spec fn repo_toml(r: RepoView) -> Seq<char> {
    "[[repository]]\n"@ + field_line("name"@, r.name) + opt_field_line("description"@, r.description)
        + opt_field_line("url"@, r.url) + opt_field_line("upstream"@, r.upstream) + opt_field_line(
        "branch"@,
        r.branch,
    ) + opt_field_line("path"@, r.path)
}

/// The serialized form of a sequence of repository records.
pub open spec fn repos_toml(rs: Seq<RepoView>) -> Seq<char>
    decreases rs.len(),
{
    if rs.len() == 0 {
        Seq::<char>::empty()
    } else {
        repos_toml(rs.drop_last()) + repo_toml(rs.last())
    }
}

/// The canonical serialized form of a configuration: nothing for an
/// absent repository field, the explicit empty array for an empty one,
/// and the concatenated records otherwise.
pub open spec fn config_toml(c: ConfigView) -> Seq<char> {
    match c {
        None => Seq::<char>::empty(),
        Some(rs) => if rs.len() == 0 {
            "repository"@ + " = []\n"@
        } else {
            repos_toml(rs)
        },
    }
}

/// Scanning splits over concatenation: the second part continues from the
/// state the first part reached.
pub proof fn lemma_scan_append(st: ParseSt, a: Seq<char>, b: Seq<char>)
    ensures
        scan(st, a + b, a.len() as int + b.len() as int) == scan(scan(st, a, a.len() as int), b, b.len() as int),
    decreases b.len(),
{
    let n = a.len() as int;
    let m = b.len() as int;
    if b.len() == 0 {
        lemma_scan_prefix(st, a + b, a, n);
    } else {
        let b0 = b.drop_last();
        let st2 = scan(st, a, n);
        lemma_scan_append(st, a, b0);
        assert(a + b0 =~= (a + b).subrange(0, n + m - 1));
        lemma_scan_prefix(st, a + b, a + b0, n + m - 1);
        lemma_scan_prefix(st2, b, b0, m - 1);
        assert((a + b)[n + m - 1] == b.last());
        assert(scan(st, a + b, n + m) == step(scan(st, a + b, n + m - 1), b.last()));
        assert(scan(st2, b, m) == step(scan(st2, b, m - 1), b.last()));
        assert(scan(st, a + b, n + m - 1) == scan(st2, b0, m - 1));
        assert(scan(st2, b, m - 1) == scan(st2, b0, m - 1));
    }
}

/// Scanning the first `j` characters only reads the first `j` characters:
/// two texts that agree on them scan alike.
pub proof fn lemma_scan_prefix(st: ParseSt, s1: Seq<char>, s2: Seq<char>, j: int)
    requires
        0 <= j <= s1.len(),
        j <= s2.len(),
        forall|i: int| 0 <= i < j ==> s1[i] == s2[i],
    ensures
        scan(st, s1, j) == scan(st, s2, j),
    decreases j,
{
    if j > 0 {
        lemma_scan_prefix(st, s1, s2, j - 1);
    }
}

/// The block that reading the serialized form of a record leaves open:
/// every present attribute of the record, with the name set.
pub open spec fn block_of(r: RepoView) -> BlockAcc {
    BlockAcc {
        name: Some(r.name),
        description: r.description,
        url: r.url,
        upstream: r.upstream,
        branch: r.branch,
        path: r.path,
    }
}

/// The records closed after the serialized forms of `rs` were read: all
/// but the last, whose block is still open; the field is absent when no
/// block was closed yet.
pub open spec fn prev_of(rs: Seq<RepoView>) -> Option<Seq<RepoView>> {
    if rs.len() == 1 {
        None
    } else {
        Some(rs.drop_last())
    }
}

/// Scanning a key from the start of a line reads it into the key buffer.
proof fn lemma_scan_ident(d: DocSt, id: Seq<char>)
    requires
        id.len() > 0,
        forall|i: int| 0 <= i < id.len() ==> is_lower(#[trigger] id[i]),
    ensures
        scan(ParseSt { ok: true, doc: d, line: LineSt::Start }, id, id.len() as int) == (ParseSt {
            ok: true,
            doc: d,
            line: LineSt::Ident(id),
        }),
    decreases id.len(),
{
    reveal_with_fuel(scan, 3);
    let st = ParseSt { ok: true, doc: d, line: LineSt::Start };
    if id.len() == 1 {
        assert(scan(st, id, 1) == step(st, id[0]));
        assert(is_lower(id[0]));
        assert(seq![id[0]] =~= id);
    } else {
        let n = id.len() as int;
        let id0 = id.drop_last();
        let c = id.last();
        lemma_scan_ident(d, id0);
        lemma_scan_prefix(st, id, id0, n - 1);
        assert(scan(st, id, n) == step(scan(st, id, n - 1), c));
        assert(is_lower(c));
        assert(id0.push(c) =~= id);
    }
}

/// Scanning the escaped form of a value inside a quoted string appends
/// the value to the value buffer.
proof fn lemma_scan_value(d: DocSt, id: Seq<char>, acc: Seq<char>, v: Seq<char>)
    ensures
        scan(
            ParseSt { ok: true, doc: d, line: LineSt::Str(id, acc) },
            esc_str(v),
            esc_str(v).len() as int,
        ) == (ParseSt { ok: true, doc: d, line: LineSt::Str(id, acc + v) }),
    decreases v.len(),
{
    reveal_with_fuel(scan, 3);
    let st = ParseSt { ok: true, doc: d, line: LineSt::Str(id, acc) };
    if v.len() == 0 {
        assert(esc_str(v).len() == 0);
        assert(acc + v =~= acc);
    } else {
        let v0 = v.drop_last();
        let c = v.last();
        lemma_scan_value(d, id, acc, v0);
        lemma_scan_append(st, esc_str(v0), esc_char(c));
        let st1 = ParseSt { ok: true, doc: d, line: LineSt::Str(id, acc + v0) };
        let e = esc_char(c);
        if c == '"' || c == '\\' || c == '\n' || c == '\r' || c == '\t' {
            assert(e.len() == 2);
            assert(scan(st1, e, 2) == step(step(st1, e[0]), e[1]));
            assert(e[0] == '\\');
            assert(step(st1, '\\') == (ParseSt {
                ok: true,
                doc: d,
                line: LineSt::StrEsc(id, acc + v0),
            }));
            assert(step(step(st1, e[0]), e[1]) == (ParseSt {
                ok: true,
                doc: d,
                line: LineSt::Str(id, (acc + v0).push(c)),
            }));
        } else if is_value_char(c) {
            assert(e.len() == 1);
            assert(scan(st1, e, 1) == step(st1, e[0]));
            assert(e[0] == c);
            assert(step(st1, c) == (ParseSt {
                ok: true,
                doc: d,
                line: LineSt::Str(id, (acc + v0).push(c)),
            }));
        } else {
            lemma_scan_uni(d, id, acc + v0, c);
        }
        assert((acc + v0).push(c) =~= acc + v);
    }
}

/// Scanning the `\u` escape of a control character inside a quoted value
/// appends that character to the value buffer.
#[verifier::rlimit(100)]
proof fn lemma_scan_uni(d: DocSt, id: Seq<char>, acc0: Seq<char>, c: char)
    requires
        c != '"' && c != '\\' && c != '\n' && c != '\r' && c != '\t',
        !is_value_char(c),
    ensures
        scan(
            ParseSt { ok: true, doc: d, line: LineSt::Str(id, acc0) },
            esc_char(c),
            esc_char(c).len() as int,
        ) == (ParseSt { ok: true, doc: d, line: LineSt::Str(id, acc0.push(c)) }),
{
    reveal_with_fuel(scan, 7);
    let st1 = ParseSt { ok: true, doc: d, line: LineSt::Str(id, acc0) };
    let e = esc_char(c);
    let u = c as u32;
    let v = u as int;
    assert(u < 0x20 || u == 0x7F);
    assert(0 <= v < 0x80);
    let d1 = v / 16 % 16;
    let d0 = v % 16;
    assert(v / 4096 % 16 == 0);
    assert(v / 256 % 16 == 0);
    assert(d1 == v / 16);
    assert(e.len() == 6);
    assert(e[0] == '\\' && e[1] == 'u' && e[2] == hexc(0) && e[3] == hexc(0) && e[4] == hexc(d1)
        && e[5] == hexc(d0));
    lemma_hexc_val(0);
    lemma_hexc_val(d1);
    lemma_hexc_val(d0);
    let sa = ParseSt { ok: true, doc: d, line: LineSt::StrEsc(id, acc0) };
    assert(step(st1, e[0]) == sa);
    let sb = ParseSt { ok: true, doc: d, line: LineSt::StrUni(id, acc0, 0, 0) };
    assert(step(sa, e[1]) == sb);
    let sc = ParseSt { ok: true, doc: d, line: LineSt::StrUni(id, acc0, 1, 0) };
    assert(step(sb, e[2]) == sc);
    let sd = ParseSt { ok: true, doc: d, line: LineSt::StrUni(id, acc0, 2, 0) };
    assert(step(sc, e[3]) == sd);
    let se = ParseSt { ok: true, doc: d, line: LineSt::StrUni(id, acc0, 3, d1) };
    assert(step(sd, e[4]) == se);
    assert(d1 * 16 + d0 == v);
    assert(valid_scalar4(v));
    assert(char_of4(v) == c) by {
        vstd::utf8::char_u32_cast(c, u);
    }
    let sf = ParseSt { ok: true, doc: d, line: LineSt::Str(id, acc0.push(c)) };
    assert(step(se, e[5]) == sf);
    assert(scan(st1, e, 6) == sf);
}

/// The lowercase hex digit of a value reads back as that value.
proof fn lemma_hexc_val(d: int)
    requires
        0 <= d < 16,
    ensures
        hex_val(hexc(d)) == d,
{
}

/// Scanning one serialized `key = "value"` line records the assignment
/// in the open block and returns to the start of a line.
proof fn lemma_scan_field_line(d: DocSt, b: BlockAcc, b2: BlockAcc, key: Seq<char>, v: Seq<char>)
    requires
        d.cur == Some(b),
        assign_field(b, key, v) == Some(b2),
        key.len() > 0,
        forall|i: int| 0 <= i < key.len() ==> is_lower(#[trigger] key[i]),
    ensures
        scan(
            ParseSt { ok: true, doc: d, line: LineSt::Start },
            field_line(key, v),
            field_line(key, v).len() as int,
        ) == (ParseSt { ok: true, doc: DocSt { cur: Some(b2), ..d }, line: LineSt::Start }),
{
    reveal_with_fuel(scan, 5);
    let st = ParseSt { ok: true, doc: d, line: LineSt::Start };
    let m1 = " = \""@;
    let e = esc_str(v);
    let m2 = "\"\n"@;
    reveal_strlit(" = \"");
    reveal_strlit("\"\n");
    lemma_scan_append(st, key + m1 + e, m2);
    lemma_scan_append(st, key + m1, e);
    lemma_scan_append(st, key, m1);
    lemma_scan_ident(d, key);
    let st1 = ParseSt { ok: true, doc: d, line: LineSt::Ident(key) };
    assert(m1.len() == 4);
    assert(scan(st1, m1, 4) == step(step(step(step(st1, m1[0]), m1[1]), m1[2]), m1[3]));
    assert(m1[0] == ' ' && m1[1] == '=' && m1[2] == ' ' && m1[3] == '"');
    assert(step(st1, ' ') == (ParseSt { ok: true, doc: d, line: LineSt::AfterIdent(key) }));
    let st2 = ParseSt { ok: true, doc: d, line: LineSt::Str(key, Seq::<char>::empty()) };
    assert(scan(st1, m1, 4) == st2);
    lemma_scan_value(d, key, Seq::<char>::empty(), v);
    assert(Seq::<char>::empty() + v =~= v);
    let st3 = ParseSt { ok: true, doc: d, line: LineSt::Str(key, v) };
    assert(m2.len() == 2);
    assert(scan(st3, m2, 2) == step(step(st3, m2[0]), m2[1]));
    assert(m2[0] == '"' && m2[1] == '\n');
    let st4 = step(st3, '"');
    assert(st4 == (ParseSt { ok: true, doc: DocSt { cur: Some(b2), ..d }, line: LineSt::AfterVal }));
    assert(step(st4, '\n') == (ParseSt {
        ok: true,
        doc: DocSt { cur: Some(b2), ..d },
        line: LineSt::Start,
    }));
}

/// Scanning a `[[repository]]` header line closes the open block and
/// opens a fresh one.
proof fn lemma_scan_header(d: DocSt, d2: DocSt)
    requires
        !d.frozen,
        close_block(d) == Some(d2),
    ensures
        scan(ParseSt { ok: true, doc: d, line: LineSt::Start }, "[[repository]]\n"@, 15) == (ParseSt {
            ok: true,
            doc: DocSt { repos: d2.repos, frozen: false, cur: Some(empty_block()) },
            line: LineSt::Start,
        }),
{
    reveal_with_fuel(scan, 2);
    let st = ParseSt { ok: true, doc: d, line: LineSt::Start };
    let h = "[[repository]]\n"@;
    let p = header_pat();
    reveal_strlit("[[repository]]\n");
    reveal_strlit("[[repository]]");
    assert(h.len() == 15);
    assert(p.len() == 14);
    assert(forall|i: int| 0 <= i < 14 ==> h[i] == p[i]) by {
        assert(h[0] == '[' && h[1] == '[' && h[2] == 'r' && h[3] == 'e' && h[4] == 'p' && h[5]
            == 'o' && h[6] == 's' && h[7] == 'i' && h[8] == 't' && h[9] == 'o' && h[10] == 'r'
            && h[11] == 'y' && h[12] == ']' && h[13] == ']');
        assert(p[0] == '[' && p[1] == '[' && p[2] == 'r' && p[3] == 'e' && p[4] == 'p' && p[5]
            == 'o' && p[6] == 's' && p[7] == 'i' && p[8] == 't' && p[9] == 'o' && p[10] == 'r'
            && p[11] == 'y' && p[12] == ']' && p[13] == ']');
    }
    assert(scan(st, h, 1) == step(st, h[0]));
    assert(scan(st, h, 1) == (ParseSt { ok: true, doc: d, line: LineSt::Header(1) }));
    assert(scan(st, h, 2) == step(scan(st, h, 1), h[1]));
    assert(scan(st, h, 2) == (ParseSt { ok: true, doc: d, line: LineSt::Header(2) }));
    assert(scan(st, h, 3) == step(scan(st, h, 2), h[2]));
    assert(scan(st, h, 3) == (ParseSt { ok: true, doc: d, line: LineSt::Header(3) }));
    assert(scan(st, h, 4) == step(scan(st, h, 3), h[3]));
    assert(scan(st, h, 4) == (ParseSt { ok: true, doc: d, line: LineSt::Header(4) }));
    assert(scan(st, h, 5) == step(scan(st, h, 4), h[4]));
    assert(scan(st, h, 5) == (ParseSt { ok: true, doc: d, line: LineSt::Header(5) }));
    assert(scan(st, h, 6) == step(scan(st, h, 5), h[5]));
    assert(scan(st, h, 6) == (ParseSt { ok: true, doc: d, line: LineSt::Header(6) }));
    assert(scan(st, h, 7) == step(scan(st, h, 6), h[6]));
    assert(scan(st, h, 7) == (ParseSt { ok: true, doc: d, line: LineSt::Header(7) }));
    assert(scan(st, h, 8) == step(scan(st, h, 7), h[7]));
    assert(scan(st, h, 8) == (ParseSt { ok: true, doc: d, line: LineSt::Header(8) }));
    assert(scan(st, h, 9) == step(scan(st, h, 8), h[8]));
    assert(scan(st, h, 9) == (ParseSt { ok: true, doc: d, line: LineSt::Header(9) }));
    assert(scan(st, h, 10) == step(scan(st, h, 9), h[9]));
    assert(scan(st, h, 10) == (ParseSt { ok: true, doc: d, line: LineSt::Header(10) }));
    assert(scan(st, h, 11) == step(scan(st, h, 10), h[10]));
    assert(scan(st, h, 11) == (ParseSt { ok: true, doc: d, line: LineSt::Header(11) }));
    assert(scan(st, h, 12) == step(scan(st, h, 11), h[11]));
    assert(scan(st, h, 12) == (ParseSt { ok: true, doc: d, line: LineSt::Header(12) }));
    assert(scan(st, h, 13) == step(scan(st, h, 12), h[12]));
    assert(scan(st, h, 13) == (ParseSt { ok: true, doc: d, line: LineSt::Header(13) }));
    let d3 = DocSt { repos: d2.repos, frozen: false, cur: Some(empty_block()) };
    assert(scan(st, h, 14) == step(scan(st, h, 13), h[13]));
    assert(open_block(d) == Some(d3));
    assert(scan(st, h, 14) == (ParseSt { ok: true, doc: d3, line: LineSt::AfterVal }));
    assert(scan(st, h, 15) == step(scan(st, h, 14), h[14]));
    assert(h[14] == '\n');
    assert(scan(st, h, 15) == (ParseSt { ok: true, doc: d3, line: LineSt::Start }));
}

/// The six field keys are sequences of lowercase letters.
proof fn lemma_keys_lower()
    ensures
        forall|i: int| 0 <= i < 4 ==> is_lower(#[trigger] "name"@[i]),
        forall|i: int| 0 <= i < 11 ==> is_lower(#[trigger] "description"@[i]),
        forall|i: int| 0 <= i < 3 ==> is_lower(#[trigger] "url"@[i]),
        forall|i: int| 0 <= i < 8 ==> is_lower(#[trigger] "upstream"@[i]),
        forall|i: int| 0 <= i < 6 ==> is_lower(#[trigger] "branch"@[i]),
        forall|i: int| 0 <= i < 4 ==> is_lower(#[trigger] "path"@[i]),
        "name"@.len() == 4,
        "description"@.len() == 11,
        "url"@.len() == 3,
        "upstream"@.len() == 8,
        "branch"@.len() == 6,
        "path"@.len() == 4,
        "name"@ != "path"@,
{
    reveal_strlit("name");
    reveal_strlit("description");
    reveal_strlit("url");
    reveal_strlit("upstream");
    reveal_strlit("branch");
    reveal_strlit("path");
    assert("name"@[0] == 'n' && "name"@[1] == 'a' && "name"@[2] == 'm' && "name"@[3] == 'e');
    assert("description"@[0] == 'd' && "description"@[1] == 'e' && "description"@[2] == 's'
        && "description"@[3] == 'c' && "description"@[4] == 'r' && "description"@[5] == 'i'
        && "description"@[6] == 'p' && "description"@[7] == 't' && "description"@[8] == 'i'
        && "description"@[9] == 'o' && "description"@[10] == 'n');
    assert("url"@[0] == 'u' && "url"@[1] == 'r' && "url"@[2] == 'l');
    assert("upstream"@[0] == 'u' && "upstream"@[1] == 'p' && "upstream"@[2] == 's' && "upstream"@[3]
        == 't' && "upstream"@[4] == 'r' && "upstream"@[5] == 'e' && "upstream"@[6] == 'a'
        && "upstream"@[7] == 'm');
    assert("branch"@[0] == 'b' && "branch"@[1] == 'r' && "branch"@[2] == 'a' && "branch"@[3] == 'n'
        && "branch"@[4] == 'c' && "branch"@[5] == 'h');
    assert("path"@[0] == 'p' && "path"@[1] == 'a' && "path"@[2] == 't' && "path"@[3] == 'h');
    assert("name"@[0] != "path"@[0]);
}

/// Scanning the serialized form of one record from the start of a line
/// closes the open block and leaves the record's block open.
proof fn lemma_scan_repo(d: DocSt, d2: DocSt, r: RepoView)
    requires
        !d.frozen,
        close_block(d) == Some(d2),
    ensures
        scan(
            ParseSt { ok: true, doc: d, line: LineSt::Start },
            repo_toml(r),
            repo_toml(r).len() as int,
        ) == (ParseSt {
            ok: true,
            doc: DocSt { repos: d2.repos, frozen: false, cur: Some(block_of(r)) },
            line: LineSt::Start,
        }),
{
    let st = ParseSt { ok: true, doc: d, line: LineSt::Start };
    lemma_keys_lower();
    let h = "[[repository]]\n"@;
    let f1 = field_line("name"@, r.name);
    let f2 = opt_field_line("description"@, r.description);
    let f3 = opt_field_line("url"@, r.url);
    let f4 = opt_field_line("upstream"@, r.upstream);
    let f5 = opt_field_line("branch"@, r.branch);
    let f6 = opt_field_line("path"@, r.path);
    lemma_scan_append(st, h, f1);
    lemma_scan_append(st, h + f1, f2);
    lemma_scan_append(st, h + f1 + f2, f3);
    lemma_scan_append(st, h + f1 + f2 + f3, f4);
    lemma_scan_append(st, h + f1 + f2 + f3 + f4, f5);
    lemma_scan_append(st, h + f1 + f2 + f3 + f4 + f5, f6);
    lemma_scan_header(d, d2);
    let dh = DocSt { repos: d2.repos, frozen: false, cur: Some(empty_block()) };
    let b1 = BlockAcc { name: Some(r.name), ..empty_block() };
    assert(assign_field(empty_block(), "name"@, r.name) == Some(b1));
    lemma_scan_field_line(dh, empty_block(), b1, "name"@, r.name);
    let d1 = DocSt { cur: Some(b1), ..dh };
    let b2 = if r.description is Some {
        BlockAcc { description: r.description, ..b1 }
    } else {
        b1
    };
    let dd2 = DocSt { cur: Some(b2), ..d1 };
    match r.description {
        Some(x) => {
            assert(assign_field(b1, "description"@, x) == Some(b2));
            lemma_scan_field_line(d1, b1, b2, "description"@, x);
        },
        None => {
            assert(f2.len() == 0);
            assert(dd2 == d1);
        },
    }
    let b3 = if r.url is Some {
        BlockAcc { url: r.url, ..b2 }
    } else {
        b2
    };
    let d3 = DocSt { cur: Some(b3), ..dd2 };
    match r.url {
        Some(x) => {
            assert(assign_field(b2, "url"@, x) == Some(b3));
            lemma_scan_field_line(dd2, b2, b3, "url"@, x);
        },
        None => {
            assert(f3.len() == 0);
            assert(d3 == dd2);
        },
    }
    let b4 = if r.upstream is Some {
        BlockAcc { upstream: r.upstream, ..b3 }
    } else {
        b3
    };
    let d4 = DocSt { cur: Some(b4), ..d3 };
    match r.upstream {
        Some(x) => {
            assert(assign_field(b3, "upstream"@, x) == Some(b4));
            lemma_scan_field_line(d3, b3, b4, "upstream"@, x);
        },
        None => {
            assert(f4.len() == 0);
            assert(d4 == d3);
        },
    }
    let b5 = if r.branch is Some {
        BlockAcc { branch: r.branch, ..b4 }
    } else {
        b4
    };
    let d5 = DocSt { cur: Some(b5), ..d4 };
    match r.branch {
        Some(x) => {
            assert(assign_field(b4, "branch"@, x) == Some(b5));
            lemma_scan_field_line(d4, b4, b5, "branch"@, x);
        },
        None => {
            assert(f5.len() == 0);
            assert(d5 == d4);
        },
    }
    let b6 = if r.path is Some {
        BlockAcc { path: r.path, ..b5 }
    } else {
        b5
    };
    let d6 = DocSt { cur: Some(b6), ..d5 };
    match r.path {
        Some(x) => {
            assert(assign_field(b5, "path"@, x) == Some(b6));
            lemma_scan_field_line(d5, b5, b6, "path"@, x);
        },
        None => {
            assert(f6.len() == 0);
            assert(d6 == d5);
        },
    }
    assert(b6 =~= block_of(r));
    assert(d6 == (DocSt { repos: d2.repos, frozen: false, cur: Some(block_of(r)) }));
    reveal_strlit("[[repository]]\n");
    assert(h.len() == 15);
    let sth = ParseSt { ok: true, doc: dh, line: LineSt::Start };
    assert(scan(st, h, h.len() as int) == sth);
    let s1 = ParseSt { ok: true, doc: d1, line: LineSt::Start };
    assert(scan(sth, f1, f1.len() as int) == s1);
    assert(scan(st, h + f1, h.len() as int + f1.len() as int) == s1);
    let s2 = ParseSt { ok: true, doc: dd2, line: LineSt::Start };
    assert(scan(s1, f2, f2.len() as int) == s2);
    assert(scan(st, h + f1 + f2, (h + f1).len() as int + f2.len() as int) == s2);
    let s3 = ParseSt { ok: true, doc: d3, line: LineSt::Start };
    assert(scan(s2, f3, f3.len() as int) == s3);
    assert(scan(st, h + f1 + f2 + f3, (h + f1 + f2).len() as int + f3.len() as int) == s3);
    let s4 = ParseSt { ok: true, doc: d4, line: LineSt::Start };
    assert(scan(s3, f4, f4.len() as int) == s4);
    assert(scan(st, h + f1 + f2 + f3 + f4, (h + f1 + f2 + f3).len() as int + f4.len() as int)
        == s4);
    let s5 = ParseSt { ok: true, doc: d5, line: LineSt::Start };
    assert(scan(s4, f5, f5.len() as int) == s5);
    assert(scan(
        st,
        h + f1 + f2 + f3 + f4 + f5,
        (h + f1 + f2 + f3 + f4).len() as int + f5.len() as int,
    ) == s5);
    let s6 = ParseSt { ok: true, doc: d6, line: LineSt::Start };
    assert(scan(s5, f6, f6.len() as int) == s6);
    assert(scan(
        st,
        h + f1 + f2 + f3 + f4 + f5 + f6,
        (h + f1 + f2 + f3 + f4 + f5).len() as int + f6.len() as int,
    ) == s6);
}

/// Scanning the serialized forms of one or more records from the initial
/// state closes all but the last, whose block is left open.
proof fn lemma_scan_repos(rs: Seq<RepoView>)
    requires
        rs.len() > 0,
    ensures
        scan(init_st(), repos_toml(rs), repos_toml(rs).len() as int) == (ParseSt {
            ok: true,
            doc: DocSt { repos: prev_of(rs), frozen: false, cur: Some(block_of(rs.last())) },
            line: LineSt::Start,
        }),
    decreases rs.len(),
{
    let d0 = DocSt { repos: None, frozen: false, cur: None };
    if rs.len() == 1 {
        assert(repos_toml(rs.drop_last()).len() == 0);
        assert(repos_toml(rs.drop_last()) + repo_toml(rs.last()) =~= repo_toml(rs.last()));
        lemma_scan_repo(d0, d0, rs.last());
    } else {
        let rs0 = rs.drop_last();
        lemma_scan_repos(rs0);
        lemma_scan_append(init_st(), repos_toml(rs0), repo_toml(rs.last()));
        let dm = DocSt { repos: prev_of(rs0), frozen: false, cur: Some(block_of(rs0.last())) };
        let prevseq = match prev_of(rs0) {
            None => Seq::<RepoView>::empty(),
            Some(s) => s,
        };
        let dm2 = DocSt { repos: Some(prevseq.push(rs0.last())), frozen: false, cur: None };
        assert(close_block(dm) == Some(dm2)) by {
            assert(block_of(rs0.last()).name == Some(rs0.last().name));
            assert(RepoView {
                name: rs0.last().name,
                description: block_of(rs0.last()).description,
                url: block_of(rs0.last()).url,
                upstream: block_of(rs0.last()).upstream,
                branch: block_of(rs0.last()).branch,
                path: block_of(rs0.last()).path,
            } =~= rs0.last());
        }
        assert(prevseq.push(rs0.last()) =~= rs0);
        lemma_scan_repo(dm, dm2, rs.last());
    }
}

/// Parsing the canonical serialized form of a configuration yields that
/// configuration back: the configuration store's save followed by its
/// load loses nothing.
pub proof fn lemma_round_trip(c: ConfigView)
    ensures
        parse_spec(config_toml(c)) == Some(c),
{
    match c {
        None => {
            let s = config_toml(c);
            assert(s.len() == 0);
            assert(run(s) == init_st());
        },
        Some(rs) => {
            if rs.len() == 0 {
                let a = "repository"@;
                let m = " = []\n"@;
                let s = a + m;
                reveal_strlit("repository");
                reveal_strlit(" = []\n");
                assert(a.len() == 10 && m.len() == 6);
                assert(forall|i: int| 0 <= i < 10 ==> is_lower(#[trigger] a[i])) by {
                    assert(a[0] == 'r' && a[1] == 'e' && a[2] == 'p' && a[3] == 'o' && a[4] == 's'
                        && a[5] == 'i' && a[6] == 't' && a[7] == 'o' && a[8] == 'r' && a[9] == 'y');
                }
                reveal_with_fuel(scan, 2);
                let d0 = DocSt { repos: None, frozen: false, cur: None };
                lemma_scan_ident(d0, a);
                lemma_scan_append(init_st(), a, m);
                let st1 = ParseSt { ok: true, doc: d0, line: LineSt::Ident(a) };
                assert(m[0] == ' ' && m[1] == '=' && m[2] == ' ' && m[3] == '[' && m[4] == ']'
                    && m[5] == '\n');
                assert(scan(st1, m, 1) == step(st1, m[0]));
                assert(scan(st1, m, 1) == (ParseSt {
                    ok: true,
                    doc: d0,
                    line: LineSt::AfterIdent(a),
                }));
                assert(scan(st1, m, 2) == step(scan(st1, m, 1), m[1]));
                assert(scan(st1, m, 2) == (ParseSt { ok: true, doc: d0, line: LineSt::AfterEq(a) }));
                assert(scan(st1, m, 3) == step(scan(st1, m, 2), m[2]));
                assert(scan(st1, m, 3) == (ParseSt { ok: true, doc: d0, line: LineSt::AfterEq(a) }));
                assert(scan(st1, m, 4) == step(scan(st1, m, 3), m[3]));
                assert(scan(st1, m, 4) == (ParseSt { ok: true, doc: d0, line: LineSt::ArrOpen }));
                let de = DocSt { repos: Some(Seq::<RepoView>::empty()), frozen: true, cur: None };
                assert(scan(st1, m, 5) == step(scan(st1, m, 4), m[4]));
                assert(set_empty_array(d0) == Some(de));
                assert(scan(st1, m, 5) == (ParseSt { ok: true, doc: de, line: LineSt::AfterVal }));
                assert(scan(st1, m, 6) == step(scan(st1, m, 5), m[5]));
                assert(scan(st1, m, 6) == (ParseSt { ok: true, doc: de, line: LineSt::Start }));
                assert(rs =~= Seq::<RepoView>::empty());
            } else {
                lemma_scan_repos(rs);
                let dm = DocSt {
                    repos: prev_of(rs),
                    frozen: false,
                    cur: Some(block_of(rs.last())),
                };
                let prevseq = match prev_of(rs) {
                    None => Seq::<RepoView>::empty(),
                    Some(s) => s,
                };
                let dm2 = DocSt { repos: Some(prevseq.push(rs.last())), frozen: false, cur: None };
                assert(close_block(dm) == Some(dm2)) by {
                    assert(RepoView {
                        name: rs.last().name,
                        description: block_of(rs.last()).description,
                        url: block_of(rs.last()).url,
                        upstream: block_of(rs.last()).upstream,
                        branch: block_of(rs.last()).branch,
                        path: block_of(rs.last()).path,
                    } =~= rs.last());
                }
                assert(prevseq.push(rs.last()) =~= rs);
            }
        },
    }
}

/// An empty or whitespace-only document is valid and denotes the
/// configuration with no repository field.
pub proof fn lemma_whitespace_parses_empty(s: Seq<char>)
    requires
        forall|i: int|
            0 <= i < s.len() ==> (#[trigger] s[i] == '\n' || s[i] == '\r' || is_ws(s[i])),
        forall|i: int|
            0 <= i < s.len() && #[trigger] s[i] == '\r' ==> i + 1 < s.len() && s[i + 1] == '\n',
    ensures
        parse_spec(s) == Some(None::<Seq<RepoView>>),
{
    lemma_whitespace_scan(s, s.len() as int);
}

/// Scanning whitespace stays in the initial state, passing through the
/// carriage-return state only in the middle of a CRLF pair.
proof fn lemma_whitespace_scan(s: Seq<char>, j: int)
    requires
        0 <= j <= s.len(),
        forall|i: int|
            0 <= i < s.len() ==> (#[trigger] s[i] == '\n' || s[i] == '\r' || is_ws(s[i])),
        forall|i: int|
            0 <= i < s.len() && #[trigger] s[i] == '\r' ==> i + 1 < s.len() && s[i + 1] == '\n',
    ensures
        scan(init_st(), s, j) == if j > 0 && s[j - 1] == '\r' {
            ParseSt { line: LineSt::SeenCr, ..init_st() }
        } else {
            init_st()
        },
    decreases j,
{
    if j > 0 {
        lemma_whitespace_scan(s, j - 1);
        if j > 1 && s[j - 2] == '\r' {
            assert(s[j - 1] == '\n');
        }
    }
}

/// Whether consuming `c` in state `st` completes a `[[repository]]`
/// table header.
pub open spec fn completes_header(st: ParseSt, c: char) -> bool {
    &&& st.ok
    &&& (st.line matches LineSt::Header(k) && k == 13)
    &&& c == header_pat()[13]
}

/// The number of table headers completed within the first `j` characters
/// of the document.
pub open spec fn headers_upto(s: Seq<char>, j: int) -> int
    decreases j,
{
    if j <= 0 {
        0
    } else {
        headers_upto(s, j - 1) + if completes_header(scan(init_st(), s, j - 1), s[j - 1]) {
            1int
        } else {
            0int
        }
    }
}

/// The records a parser state stands for: the closed records, plus the
/// block still open.
spec fn doc_count(d: DocSt) -> int {
    (match d.repos {
        Some(rs) => rs.len() as int,
        None => 0,
    }) + if d.cur is Some {
        1int
    } else {
        0int
    }
}

/// One step preserves the record count, raising it exactly on a
/// completed header.
proof fn lemma_count_step(st: ParseSt, c: char, n: int)
    requires
        st.ok ==> n == doc_count(st.doc),
    ensures
        step(st, c).ok ==> doc_count(step(st, c).doc) == n + if completes_header(st, c) {
            1int
        } else {
            0int
        },
{
}

/// Scanning keeps the record count equal to the number of completed
/// headers.
proof fn lemma_count_scan(s: Seq<char>, j: int)
    requires
        0 <= j <= s.len(),
    ensures
        scan(init_st(), s, j).ok ==> headers_upto(s, j) == doc_count(scan(init_st(), s, j).doc),
    decreases j,
{
    if j > 0 {
        lemma_count_scan(s, j - 1);
        lemma_count_step(scan(init_st(), s, j - 1), s[j - 1], headers_upto(s, j - 1));
    }
}

/// A document that parses to a repository list yields exactly one record
/// per completed `[[repository]]` header, in document order.
pub proof fn lemma_record_count(s: Seq<char>, rs: Seq<RepoView>)
    requires
        parse_spec(s) == Some(Some(rs)),
    ensures
        rs.len() == headers_upto(s, s.len() as int),
{
    let st0 = run(s);
    lemma_count_scan(s, s.len() as int);
    lemma_count_step(st0, '\n', headers_upto(s, s.len() as int));
    reveal_strlit("[[repository]]");
}

/// A document that parses to a configuration without the repository
/// field completed no `[[repository]]` header.
pub proof fn lemma_absent_field_no_header(s: Seq<char>)
    requires
        parse_spec(s) == Some(None::<Seq<RepoView>>),
    ensures
        headers_upto(s, s.len() as int) == 0,
{
    let st0 = run(s);
    lemma_count_scan(s, s.len() as int);
    lemma_count_step(st0, '\n', headers_upto(s, s.len() as int));
    reveal_strlit("[[repository]]");
}

/// The rejected state absorbs every further character: a scan that has
/// reached the rejected state stays there.
pub proof fn lemma_scan_err_from(st: ParseSt, s: Seq<char>, j0: int, j: int)
    requires
        0 <= j0 <= j,
        scan(st, s, j0) == st_err(),
    ensures
        scan(st, s, j) == st_err(),
    decreases j - j0,
{
    if j > j0 {
        lemma_scan_err_from(st, s, j0, j - 1);
    }
}

} // verus!
