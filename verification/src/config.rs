//! The configuration store: the `Config` and `Repository` model, the
//! `Remote` builder that assembles a `Repository`, and the verified
//! reader and writer for the persisted TOML document.
//!
//! The document format itself — the grammar, the canonical serialized
//! form, and the round-trip law — is defined in [`crate::toml_text`].

use vstd::prelude::*;
use crate::RprError;
use crate::toml_text::BlockAcc;
use crate::toml_text::DocSt;
use crate::toml_text::LineSt;
use crate::toml_text::ParseSt;
use crate::toml_text::RepoView;
use crate::toml_text::assign_field;
use crate::toml_text::close_block;
use crate::toml_text::config_toml;
use crate::toml_text::esc_char;
use crate::toml_text::esc_str;
use crate::toml_text::field_line;
use crate::toml_text::char_of4;
use crate::toml_text::header_pat;
use crate::toml_text::hex_val;
use crate::toml_text::hexc;
use crate::toml_text::init_st;
use crate::toml_text::is_lower;
use crate::toml_text::is_value_char;
use crate::toml_text::is_ws;
use crate::toml_text::lemma_round_trip;
use crate::toml_text::lemma_scan_err_from;
use crate::toml_text::opt_field_line;
use crate::toml_text::parse_spec;
use crate::toml_text::repo_toml;
use crate::toml_text::repos_toml;
use crate::toml_text::run;
use crate::toml_text::scan;
use crate::toml_text::st_err;
use crate::toml_text::valid_scalar;
use crate::toml_text::step;

verus! {

/// One tracked remote repository, as persisted in the configuration file.
/// Every field except `name` is optional; a repository with only a name is
/// a valid placeholder declaration.
#[derive(Debug, PartialEq)]
pub struct Repository {
    /// A human-readable identifier for the remote. Mandatory.
    pub name: String,
    /// A brief descriptor for the remote, for identification only.
    pub description: Option<String>,
    /// The URL of the remote.
    pub url: Option<String>,
    /// The URL of an upstream fork of the remote.
    pub upstream: Option<String>,
    /// The primary branch of the remote.
    pub branch: Option<String>,
    /// A path within the repository to the target content.
    pub path: Option<String>,
}

/// The view of an optional string.
pub open spec fn opt_view(o: Option<String>) -> Option<Seq<char>> {
    match o {
        None => None,
        Some(s) => Some(s@),
    }
}

impl View for Repository {
    type V = RepoView;

    open spec fn view(&self) -> RepoView {
        RepoView {
            name: self.name@,
            description: opt_view(self.description),
            url: opt_view(self.url),
            upstream: opt_view(self.upstream),
            branch: opt_view(self.branch),
            path: opt_view(self.path),
        }
    }
}

/// The root of the configuration file: the optional sequence of tracked
/// repositories. An absent field is valid and means that no repository is
/// tracked.
#[derive(Debug, PartialEq)]
pub struct Config {
    /// The tracked remote repositories.
    pub repository: Option<Vec<Repository>>,
}

/// The views of a sequence of repositories.
pub open spec fn repo_views(v: Seq<Repository>) -> Seq<RepoView> {
    v.map_values(|r: Repository| r@)
}

impl View for Config {
    type V = Option<Seq<RepoView>>;

    open spec fn view(&self) -> Option<Seq<RepoView>> {
        match self.repository {
            None => None,
            Some(v) => Some(repo_views(v@)),
        }
    }
}

/// A builder for [`Repository`] values: attributes are accumulated one
/// call at a time and frozen with [`Remote::create`].
#[derive(Debug)]
pub struct Remote {
    /// A human-readable identifier for the remote. Mandatory.
    pub name: String,
    /// A brief descriptor for the remote, for identification only.
    pub description: Option<String>,
    /// The URL of the remote.
    pub url: Option<String>,
    /// The URL of an upstream fork of the remote.
    pub upstream: Option<String>,
    /// The primary branch of the remote.
    pub branch: Option<String>,
    /// A path within the repository to the target content.
    pub path: Option<String>,
}

impl View for Remote {
    type V = RepoView;

    open spec fn view(&self) -> RepoView {
        RepoView {
            name: self.name@,
            description: opt_view(self.description),
            url: opt_view(self.url),
            upstream: opt_view(self.upstream),
            branch: opt_view(self.branch),
            path: opt_view(self.path),
        }
    }
}

impl Remote {
    /// Starts a builder for a repository with the given name and no other
    /// attribute.
    pub fn new(name: String) -> (r: Remote)
        ensures
            r@ == (RepoView {
                name: name@,
                description: None,
                url: None,
                upstream: None,
                branch: None,
                path: None,
            }),
    {
        Remote { name, description: None, url: None, upstream: None, branch: None, path: None }
    }

    /// Sets the user-readable description for the remote.
    pub fn description(self, desc: String) -> (r: Remote)
        ensures
            r@ == (RepoView { description: Some(desc@), ..self@ }),
    {
        let Remote { name, description: _, url, upstream, branch, path } = self;
        Remote { name, description: Some(desc), url, upstream, branch, path }
    }

    /// Sets the URL that the remote can be accessed on.
    pub fn url(self, url: String) -> (r: Remote)
        ensures
            r@ == (RepoView { url: Some(url@), ..self@ }),
    {
        let Remote { name, description, url: _, upstream, branch, path } = self;
        Remote { name, description, url: Some(url), upstream, branch, path }
    }

    /// Sets the URL of an upstream fork of the remote.
    pub fn upstream(self, upstream: String) -> (r: Remote)
        ensures
            r@ == (RepoView { upstream: Some(upstream@), ..self@ }),
    {
        let Remote { name, description, url, upstream: _, branch, path } = self;
        Remote { name, description, url, upstream: Some(upstream), branch, path }
    }

    /// Sets the primary branch of the remote to be tracked.
    pub fn branch(self, branch: String) -> (r: Remote)
        ensures
            r@ == (RepoView { branch: Some(branch@), ..self@ }),
    {
        let Remote { name, description, url, upstream, branch: _, path } = self;
        Remote { name, description, url, upstream, branch: Some(branch), path }
    }

    /// Sets the path within the remote to the content to track.
    pub fn path(self, path: String) -> (r: Remote)
        ensures
            r@ == (RepoView { path: Some(path@), ..self@ }),
    {
        let Remote { name, description, url, upstream, branch, path: _ } = self;
        Remote { name, description, url, upstream, branch, path: Some(path) }
    }

    /// Freezes the builder into an immutable [`Repository`] with the
    /// attributes configured so far.
    pub fn create(self) -> (r: Repository)
        ensures
            r@ == self@,
    {
        let Remote { name, description, url, upstream, branch, path } = self;
        Repository { name, description, url, upstream, branch, path }
    }
}

/// Relies on `String::push`: appends the given character to the end of
/// the string.
#[verifier::external_body]
fn push_char(s: &mut String, c: char)
    ensures
        final(s)@ == old(s)@.push(c),
{
    s.push(c);
}

/// Builds a string holding exactly the given characters.
fn chars_to_string(v: &Vec<char>) -> (r: String)
    ensures
        r@ == v@,
{
    let mut r = String::new();
    let mut i: usize = 0;
    while i < v.len()
        invariant
            i <= v.len(),
            r@ == v@.subrange(0, i as int),
        decreases v.len() - i,
    {
        push_char(&mut r, v[i]);
        proof {
            assert(v@.subrange(0, i as int).push(v@[i as int]) =~= v@.subrange(0, i as int + 1));
        }
        i = i + 1;
    }
    proof {
        assert(v@.subrange(0, v@.len() as int) =~= v@);
    }
    r
}

/// Whether the character is line whitespace.
fn is_ws_e(c: char) -> (b: bool)
    ensures
        b == is_ws(c),
{
    c == ' ' || c == '\t'
}

/// Whether the character is valid unescaped inside a quoted value or a
/// comment.
fn is_value_char_e(c: char) -> (b: bool)
    ensures
        b == is_value_char(c),
{
    let u = c as u32;
    c == '\t' || (u >= 0x20 && u != 0x7F)
}

/// The value of a hex digit, or -1 for any other character.
fn hex_val_e(c: char) -> (r: i32)
    ensures
        r as int == hex_val(c),
{
    let u = c as u32;
    if 48 <= u && u <= 57 {
        (u - 48) as i32
    } else if 97 <= u && u <= 102 {
        (u - 87) as i32
    } else if 65 <= u && u <= 70 {
        (u - 55) as i32
    } else {
        -1
    }
}

/// Relies on `char::from_u32`: returns the character with the given code
/// point exactly when the value is a Unicode scalar value (not a
/// surrogate and at most 0x10FFFF), and `None` otherwise.
pub assume_specification[ char::from_u32 ](i: u32) -> (r: Option<char>)
    ensures
        match r {
            Some(c) => (c as u32) == i && (i < 0xD800 || (0xE000 <= i && i <= 0x10FFFF)),
            None => !(i < 0xD800 || (0xE000 <= i && i <= 0x10FFFF)),
        },
;

/// The character with the given code point.
fn char_of4_e(v: u32) -> (c: char)
    requires
        valid_scalar(v as int),
    ensures
        c == char_of4(v as int),
{
    match char::from_u32(v) {
        Some(c) => {
            proof {
                vstd::utf8::char_u32_cast(c, v);
            }
            c
        },
        None => {
            proof {
                assert(false);
            }
            ' '
        },
    }
}

/// Whether the character is an ASCII lowercase letter.
fn is_lower_e(c: char) -> (b: bool)
    ensures
        b == is_lower(c),
{
    let u = c as u32;
    97 <= u && u <= 122
}

/// Whether the characters of `v` are exactly the characters of `s`.
fn eq_chars(v: &Vec<char>, s: &str) -> (b: bool)
    ensures
        b == (v@ == s@),
{
    let n = s.unicode_len();
    if v.len() != n {
        return false;
    }
    let mut i: usize = 0;
    while i < n
        invariant
            i <= n,
            n == s@.len(),
            v@.len() == n,
            forall|j: int| 0 <= j < i ==> v@[j] == s@[j],
        decreases n - i,
    {
        if v[i] != s.get_char(i) {
            return false;
        }
        i = i + 1;
    }
    proof {
        assert(v@ =~= s@);
    }
    true
}

/// The character at position `k` of the table header.
fn header_char(k: usize) -> (c: char)
    requires
        1 <= k < 14,
    ensures
        c == header_pat()[k as int],
{
    let hp: &str = "[[repository]]";
    proof {
        reveal_strlit("[[repository]]");
    }
    hp.get_char(k)
}

/// A repository block while its lines are being read.
struct PBlock {
    name: Option<String>,
    description: Option<String>,
    url: Option<String>,
    upstream: Option<String>,
    branch: Option<String>,
    path: Option<String>,
}

/// The view of a block under construction.
spec fn pblock_view(b: PBlock) -> BlockAcc {
    BlockAcc {
        name: opt_view(b.name),
        description: opt_view(b.description),
        url: opt_view(b.url),
        upstream: opt_view(b.upstream),
        branch: opt_view(b.branch),
        path: opt_view(b.path),
    }
}

/// The view of the optional open block.
spec fn cur_view(c: Option<PBlock>) -> Option<BlockAcc> {
    match c {
        None => None,
        Some(b) => Some(pblock_view(b)),
    }
}

/// The repository field as read so far.
spec fn repos_opt(v: Seq<Repository>, present: bool) -> Option<Seq<RepoView>> {
    if present {
        Some(repo_views(v))
    } else {
        None
    }
}

/// The position within the current line, as the executable parser tracks
/// it; the associated data lives in the buffers of [`PState`].
enum LTag {
    Start,
    Comment,
    Ident,
    AfterIdent,
    AfterEq,
    ArrOpen,
    Str,
    StrEsc,
    StrUni,
    StrUni8,
    Lit,
    Header,
    AfterVal,
    SeenCr,
}

/// The executable parser state.
struct PState {
    /// The closed repository records.
    repos: Vec<Repository>,
    /// Whether the repository field has appeared.
    present: bool,
    /// Whether `repository = []` froze the field.
    frozen: bool,
    /// The open block.
    cur: Option<PBlock>,
    /// The position within the current line.
    tag: LTag,
    /// The key read so far, meaningful in the key and value positions.
    id: Vec<char>,
    /// The value read so far, meaningful inside a quoted value.
    acc: Vec<char>,
    /// The number of header characters matched, meaningful in a header;
    /// inside a `\u` escape, the number of hex digits read.
    k: usize,
    /// The accumulated value of the hex digits read, meaningful inside a
    /// `\u` escape.
    uval: u32,
}

/// The executable parser keeps the record vector empty while the
/// repository field is still absent.
spec fn wf(ps: PState) -> bool {
    &&& !ps.present ==> ps.repos@.len() == 0
    &&& ps.tag is StrUni ==> {
        &&& ps.k <= 3
        &&& (ps.k == 0 ==> ps.uval == 0)
        &&& (ps.k == 1 ==> ps.uval < 16)
        &&& (ps.k == 2 ==> ps.uval < 256)
        &&& (ps.k == 3 ==> ps.uval < 4096)
    }
    &&& ps.tag is StrUni8 ==> {
        &&& ps.k <= 7
        &&& (ps.k == 0 ==> ps.uval == 0)
        &&& (ps.k == 1 ==> ps.uval < 16)
        &&& (ps.k == 2 ==> ps.uval < 256)
        &&& (ps.k == 3 ==> ps.uval < 4096)
        &&& (ps.k == 4 ==> ps.uval < 65536)
        &&& (ps.k == 5 ==> ps.uval < 1048576)
        &&& (ps.k == 6 ==> ps.uval < 16777216)
        &&& (ps.k == 7 ==> ps.uval < 268435456)
    }
}

/// The document-level state the executable parser represents.
spec fn docv(ps: PState) -> DocSt {
    DocSt { repos: repos_opt(ps.repos@, ps.present), frozen: ps.frozen, cur: cur_view(ps.cur) }
}

/// The line-level state the executable parser represents.
spec fn linev(ps: PState) -> LineSt {
    match ps.tag {
        LTag::Start => LineSt::Start,
        LTag::Comment => LineSt::Comment,
        LTag::Ident => LineSt::Ident(ps.id@),
        LTag::AfterIdent => LineSt::AfterIdent(ps.id@),
        LTag::AfterEq => LineSt::AfterEq(ps.id@),
        LTag::ArrOpen => LineSt::ArrOpen,
        LTag::Str => LineSt::Str(ps.id@, ps.acc@),
        LTag::StrEsc => LineSt::StrEsc(ps.id@, ps.acc@),
        LTag::StrUni => LineSt::StrUni(ps.id@, ps.acc@, ps.k as int, ps.uval as int),
        LTag::StrUni8 => LineSt::StrUni8(ps.id@, ps.acc@, ps.k as int, ps.uval as int),
        LTag::Lit => LineSt::Lit(ps.id@, ps.acc@),
        LTag::Header => LineSt::Header(ps.k as int),
        LTag::AfterVal => LineSt::AfterVal,
        LTag::SeenCr => LineSt::SeenCr,
    }
}

/// The parser state the executable parser represents; the executable
/// parser stops as soon as the document is rejected, so its state always
/// stands for an accepting one.
spec fn pview(ps: PState) -> ParseSt {
    ParseSt { ok: true, doc: docv(ps), line: linev(ps) }
}

/// Records a completed `key = "value"` line in the open block, as
/// [`assign_field`] describes; fails exactly when the specification
/// rejects the line.
fn try_assign(cur: &mut Option<PBlock>, id: &Vec<char>, acc: &Vec<char>) -> (ok: bool)
    ensures
        match cur_view(*old(cur)) {
            None => !ok,
            Some(b) => match assign_field(b, id@, acc@) {
                None => !ok,
                Some(b2) => ok && cur_view(*final(cur)) == Some(b2),
            },
        },
{
    let b = match cur.take() {
        None => {
            return false;
        },
        Some(b) => b,
    };
    if eq_chars(id, "name") {
        if b.name.is_none() {
            let v = chars_to_string(acc);
            let PBlock { name: _, description, url, upstream, branch, path } = b;
            *cur = Some(PBlock { name: Some(v), description, url, upstream, branch, path });
            true
        } else {
            false
        }
    } else if eq_chars(id, "description") {
        if b.description.is_none() {
            let v = chars_to_string(acc);
            let PBlock { name, description: _, url, upstream, branch, path } = b;
            *cur = Some(PBlock { name, description: Some(v), url, upstream, branch, path });
            true
        } else {
            false
        }
    } else if eq_chars(id, "url") {
        if b.url.is_none() {
            let v = chars_to_string(acc);
            let PBlock { name, description, url: _, upstream, branch, path } = b;
            *cur = Some(PBlock { name, description, url: Some(v), upstream, branch, path });
            true
        } else {
            false
        }
    } else if eq_chars(id, "upstream") {
        if b.upstream.is_none() {
            let v = chars_to_string(acc);
            let PBlock { name, description, url, upstream: _, branch, path } = b;
            *cur = Some(PBlock { name, description, url, upstream: Some(v), branch, path });
            true
        } else {
            false
        }
    } else if eq_chars(id, "branch") {
        if b.branch.is_none() {
            let v = chars_to_string(acc);
            let PBlock { name, description, url, upstream, branch: _, path } = b;
            *cur = Some(PBlock { name, description, url, upstream, branch: Some(v), path });
            true
        } else {
            false
        }
    } else if eq_chars(id, "path") {
        if b.path.is_none() {
            let v = chars_to_string(acc);
            let PBlock { name, description, url, upstream, branch, path: _ } = b;
            *cur = Some(PBlock { name, description, url, upstream, branch, path: Some(v) });
            true
        } else {
            false
        }
    } else {
        false
    }
}

/// Closes the open block, as [`close_block`] describes; fails exactly
/// when the block has no name.
fn close_cur(ps: &mut PState) -> (ok: bool)
    requires
        wf(*old(ps)),
    ensures
        wf(*final(ps)),
        match close_block(docv(*old(ps))) {
            None => !ok,
            Some(d2) => ok && docv(*final(ps)) == d2 && linev(*final(ps)) == linev(*old(ps)),
        },
{
    let b = match ps.cur.take() {
        None => {
            return true;
        },
        Some(b) => b,
    };
    let PBlock { name, description, url, upstream, branch, path } = b;
    let n = match name {
        None => {
            return false;
        },
        Some(n) => n,
    };
    let ghost pre_repos = ps.repos@;
    let ghost pre_present = ps.present;
    let r = Repository { name: n, description, url, upstream, branch, path };
    let ghost rv = r@;
    ps.repos.push(r);
    ps.present = true;
    proof {
        assert(repo_views(pre_repos.push(r)) =~= repo_views(pre_repos).push(rv)) by {
            assert forall|j: int|
                0 <= j < pre_repos.push(r).len() implies repo_views(pre_repos.push(r))[j]
                == repo_views(pre_repos).push(rv)[j] by {
                if j < pre_repos.len() {
                    assert(pre_repos.push(r)[j] == pre_repos[j]);
                } else {
                    assert(pre_repos.push(r)[j] == r);
                }
            }
        }
        if !pre_present {
            assert(pre_repos =~= Seq::<Repository>::empty());
            assert(repo_views(pre_repos) =~= Seq::<RepoView>::empty());
        }
    }
    true
}

/// Consumes one character, as [`step`] describes; fails exactly when the
/// step rejects the document.
#[verifier::rlimit(60)]
fn do_step(ps: &mut PState, c: char) -> (ok: bool)
    requires
        wf(*old(ps)),
    ensures
        ok ==> wf(*final(ps)),
        ok ==> pview(*final(ps)) == step(pview(*old(ps)), c),
        !ok ==> step(pview(*old(ps)), c) == st_err(),
{
    let ghost pre = pview(*old(ps));
    match ps.tag {
        LTag::Start => {
            if c == '\n' || is_ws_e(c) {
                true
            } else if c == '\r' {
                ps.tag = LTag::SeenCr;
                true
            } else if c == '#' {
                ps.tag = LTag::Comment;
                true
            } else if c == '[' {
                ps.tag = LTag::Header;
                ps.k = 1;
                true
            } else if is_lower_e(c) {
                ps.tag = LTag::Ident;
                let mut nv: Vec<char> = Vec::new();
                nv.push(c);
                ps.id = nv;
                proof {
                    assert(ps.id@ =~= seq![c]);
                }
                true
            } else {
                false
            }
        },
        LTag::Comment => {
            if c == '\n' {
                ps.tag = LTag::Start;
                true
            } else if c == '\r' {
                ps.tag = LTag::SeenCr;
                true
            } else if is_value_char_e(c) {
                true
            } else {
                false
            }
        },
        LTag::Ident => {
            if is_lower_e(c) {
                ps.id.push(c);
                true
            } else if c == '=' {
                ps.tag = LTag::AfterEq;
                true
            } else if is_ws_e(c) {
                ps.tag = LTag::AfterIdent;
                true
            } else {
                false
            }
        },
        LTag::AfterIdent => {
            if c == '=' {
                ps.tag = LTag::AfterEq;
                true
            } else if is_ws_e(c) {
                true
            } else {
                false
            }
        },
        LTag::AfterEq => {
            if c == '"' {
                ps.tag = LTag::Str;
                ps.acc = Vec::new();
                proof {
                    assert(ps.acc@ =~= Seq::<char>::empty());
                }
                true
            } else if c == '\'' {
                ps.tag = LTag::Lit;
                ps.acc = Vec::new();
                proof {
                    assert(ps.acc@ =~= Seq::<char>::empty());
                }
                true
            } else if c == '[' {
                if eq_chars(&ps.id, "repository") {
                    ps.tag = LTag::ArrOpen;
                    true
                } else {
                    false
                }
            } else if is_ws_e(c) {
                true
            } else {
                false
            }
        },
        LTag::ArrOpen => {
            if c == ']' {
                if !ps.present && ps.cur.is_none() {
                    ps.repos = Vec::new();
                    ps.present = true;
                    ps.frozen = true;
                    ps.tag = LTag::AfterVal;
                    proof {
                        assert(repo_views(ps.repos@) =~= Seq::<RepoView>::empty());
                    }
                    true
                } else {
                    false
                }
            } else if is_ws_e(c) {
                true
            } else {
                false
            }
        },
        LTag::Str => {
            if c == '"' {
                let ok = try_assign(&mut ps.cur, &ps.id, &ps.acc);
                if ok {
                    ps.tag = LTag::AfterVal;
                    true
                } else {
                    false
                }
            } else if c == '\\' {
                ps.tag = LTag::StrEsc;
                true
            } else if is_value_char_e(c) {
                ps.acc.push(c);
                true
            } else {
                false
            }
        },
        LTag::StrEsc => {
            if c == 'n' {
                ps.acc.push('\n');
                ps.tag = LTag::Str;
                true
            } else if c == 't' {
                ps.acc.push('\t');
                ps.tag = LTag::Str;
                true
            } else if c == 'r' {
                ps.acc.push('\r');
                ps.tag = LTag::Str;
                true
            } else if c == '"' {
                ps.acc.push('"');
                ps.tag = LTag::Str;
                true
            } else if c == '\\' {
                ps.acc.push('\\');
                ps.tag = LTag::Str;
                true
            } else if c == 'u' {
                ps.tag = LTag::StrUni;
                ps.k = 0;
                ps.uval = 0;
                true
            } else if c == 'U' {
                ps.tag = LTag::StrUni8;
                ps.k = 0;
                ps.uval = 0;
                true
            } else {
                false
            }
        },
        LTag::StrUni => {
            let hv = hex_val_e(c);
            if ps.k < 4 && hv >= 0 {
                let v2: u32 = ps.uval * 16 + (hv as u32);
                if ps.k == 3 {
                    if v2 < 0xD800 || 0xE000 <= v2 {
                        let cc = char_of4_e(v2);
                        ps.acc.push(cc);
                        ps.tag = LTag::Str;
                        true
                    } else {
                        false
                    }
                } else {
                    ps.uval = v2;
                    ps.k = ps.k + 1;
                    true
                }
            } else {
                false
            }
        },
        LTag::StrUni8 => {
            let hv = hex_val_e(c);
            if ps.k < 8 && hv >= 0 {
                let v2: u32 = ps.uval * 16 + (hv as u32);
                if ps.k == 7 {
                    if v2 < 0xD800 || (0xE000 <= v2 && v2 <= 0x10FFFF) {
                        let cc = char_of4_e(v2);
                        ps.acc.push(cc);
                        ps.tag = LTag::Str;
                        true
                    } else {
                        false
                    }
                } else {
                    ps.uval = v2;
                    ps.k = ps.k + 1;
                    true
                }
            } else {
                false
            }
        },
        LTag::Lit => {
            if c == '\'' {
                let ok = try_assign(&mut ps.cur, &ps.id, &ps.acc);
                if ok {
                    ps.tag = LTag::AfterVal;
                    true
                } else {
                    false
                }
            } else if is_value_char_e(c) {
                ps.acc.push(c);
                true
            } else {
                false
            }
        },
        LTag::Header => {
            if (ps.k == 2 || ps.k == 12) && is_ws_e(c) {
                true
            } else if 1 <= ps.k && ps.k < 14 && c == header_char(ps.k) {
                if ps.k == 13 {
                    if ps.frozen {
                        false
                    } else {
                        let ok = close_cur(ps);
                        if ok {
                            ps.cur = Some(
                                PBlock {
                                    name: None,
                                    description: None,
                                    url: None,
                                    upstream: None,
                                    branch: None,
                                    path: None,
                                },
                            );
                            ps.tag = LTag::AfterVal;
                            true
                        } else {
                            false
                        }
                    }
                } else {
                    ps.k = ps.k + 1;
                    true
                }
            } else {
                false
            }
        },
        LTag::AfterVal => {
            if c == '\n' {
                ps.tag = LTag::Start;
                true
            } else if c == '\r' {
                ps.tag = LTag::SeenCr;
                true
            } else if c == '#' {
                ps.tag = LTag::Comment;
                true
            } else if is_ws_e(c) {
                true
            } else {
                false
            }
        },
        LTag::SeenCr => {
            if c == '\n' {
                ps.tag = LTag::Start;
                true
            } else {
                false
            }
        },
    }
}

/// The lowercase hex digit for a value below sixteen.
fn hexc_e(d: u32) -> (c: char)
    requires
        d < 16,
    ensures
        c == hexc(d as int),
{
    if d == 0 {
        '0'
    } else if d == 1 {
        '1'
    } else if d == 2 {
        '2'
    } else if d == 3 {
        '3'
    } else if d == 4 {
        '4'
    } else if d == 5 {
        '5'
    } else if d == 6 {
        '6'
    } else if d == 7 {
        '7'
    } else if d == 8 {
        '8'
    } else if d == 9 {
        '9'
    } else if d == 10 {
        'a'
    } else if d == 11 {
        'b'
    } else if d == 12 {
        'c'
    } else if d == 13 {
        'd'
    } else if d == 14 {
        'e'
    } else {
        'f'
    }
}

/// Appends the escaped form of `v` to `out`.
fn write_escaped(out: &mut String, v: &String)
    ensures
        final(out)@ == old(out)@ + esc_str(v@),
{
    let ghost base = out@;
    let s: &str = v.as_str();
    let n = s.unicode_len();
    let mut i: usize = 0;
    while i < n
        invariant
            i <= n,
            n == s@.len(),
            s@ == v@,
            out@ == base + esc_str(v@.subrange(0, i as int)),
        decreases n - i,
    {
        let c = s.get_char(i);
        let ghost mid = out@;
        if c == '"' {
            push_char(out, '\\');
            push_char(out, '"');
        } else if c == '\\' {
            push_char(out, '\\');
            push_char(out, '\\');
        } else if c == '\n' {
            push_char(out, '\\');
            push_char(out, 'n');
        } else if c == '\r' {
            push_char(out, '\\');
            push_char(out, 'r');
        } else if c == '\t' {
            push_char(out, '\\');
            push_char(out, 't');
        } else if is_value_char_e(c) {
            push_char(out, c);
        } else {
            let u = c as u32;
            push_char(out, '\\');
            push_char(out, 'u');
            push_char(out, hexc_e(u / 4096 % 16));
            push_char(out, hexc_e(u / 256 % 16));
            push_char(out, hexc_e(u / 16 % 16));
            push_char(out, hexc_e(u % 16));
        }
        proof {
            assert(out@ =~= mid + esc_char(c));
            assert(v@.subrange(0, i as int + 1).drop_last() =~= v@.subrange(0, i as int));
            assert(esc_str(v@.subrange(0, i as int + 1)) == esc_str(v@.subrange(0, i as int))
                + esc_char(c));
            assert(out@ =~= base + esc_str(v@.subrange(0, i as int + 1)));
        }
        i = i + 1;
    }
    proof {
        assert(v@.subrange(0, v@.len() as int) =~= v@);
    }
}

/// Appends one `key = "value"` line to `out`.
fn write_field(out: &mut String, key: &str, v: &String)
    ensures
        final(out)@ == old(out)@ + field_line(key@, v@),
{
    let ghost base = out@;
    out.append(key);
    out.append(" = \"");
    write_escaped(out, v);
    out.append("\"\n");
    proof {
        assert(out@ =~= base + (key@ + " = \""@ + esc_str(v@) + "\"\n"@));
    }
}

/// Appends the field line for an optional attribute to `out`: nothing
/// when the attribute is absent.
fn write_opt_field(out: &mut String, key: &str, v: &Option<String>)
    ensures
        final(out)@ == old(out)@ + opt_field_line(key@, opt_view(*v)),
{
    match v {
        Some(s) => write_field(out, key, s),
        None => {
            proof {
                assert(out@ + opt_field_line(key@, opt_view(*v)) =~= out@);
            }
        },
    }
}

/// Appends the serialized form of one repository record to `out`.
#[verifier::rlimit(100)]
fn write_repo(out: &mut String, r: &Repository)
    ensures
        final(out)@ == old(out)@ + repo_toml(r@),
{
    let ghost base = out@;
    let ghost h = "[[repository]]\n"@;
    let ghost f1 = field_line("name"@, r@.name);
    let ghost f2 = opt_field_line("description"@, r@.description);
    let ghost f3 = opt_field_line("url"@, r@.url);
    let ghost f4 = opt_field_line("upstream"@, r@.upstream);
    let ghost f5 = opt_field_line("branch"@, r@.branch);
    let ghost f6 = opt_field_line("path"@, r@.path);
    out.append("[[repository]]\n");
    write_field(out, "name", &r.name);
    write_opt_field(out, "description", &r.description);
    write_opt_field(out, "url", &r.url);
    write_opt_field(out, "upstream", &r.upstream);
    write_opt_field(out, "branch", &r.branch);
    write_opt_field(out, "path", &r.path);
    proof {
        assert(out@ == base + h + f1 + f2 + f3 + f4 + f5 + f6);
        assert(base + h + f1 =~= base + (h + f1));
        assert(base + (h + f1) + f2 =~= base + (h + f1 + f2));
        assert(base + (h + f1 + f2) + f3 =~= base + (h + f1 + f2 + f3));
        assert(base + (h + f1 + f2 + f3) + f4 =~= base + (h + f1 + f2 + f3 + f4));
        assert(base + (h + f1 + f2 + f3 + f4) + f5 =~= base + (h + f1 + f2 + f3 + f4 + f5));
        assert(base + (h + f1 + f2 + f3 + f4) + f5 + f6 =~= base + (h + f1 + f2 + f3 + f4 + f5
            + f6));
        assert(base + h + f1 + f2 =~= base + (h + f1) + f2);
        assert(base + h + f1 + f2 + f3 =~= base + (h + f1 + f2) + f3);
        assert(base + h + f1 + f2 + f3 + f4 =~= base + (h + f1 + f2 + f3) + f4);
        assert(base + h + f1 + f2 + f3 + f4 + f5 =~= base + (h + f1 + f2 + f3 + f4) + f5);
        assert(base + h + f1 + f2 + f3 + f4 + f5 + f6 =~= base + (h + f1 + f2 + f3 + f4) + f5
            + f6);
        assert(out@ == base + repo_toml(r@));
    }
}

impl Config {
    /// Serializes the configuration into its canonical TOML document:
    /// one `[[repository]]` table per record with its present fields in
    /// declaration order, the bare `repository = []` line for an
    /// explicitly empty record list, and the empty document when the
    /// repository field is absent.
    pub fn to_toml(&self) -> (r: String)
        ensures
            r@ == config_toml(self@),
    {
        let mut out = String::new();
        match &self.repository {
            None => {
                proof {
                    assert(out@ =~= config_toml(self@));
                }
            },
            Some(v) => {
                if v.len() == 0 {
                    out.append("repository");
                    out.append(" = []\n");
                    proof {
                        assert(out@ =~= "repository"@ + " = []\n"@);
                    }
                } else {
                    let ghost rvs = repo_views(v@);
                    let mut i: usize = 0;
                    while i < v.len()
                        invariant
                            i <= v.len(),
                            rvs == repo_views(v@),
                            rvs.len() == v@.len(),
                            out@ == repos_toml(rvs.subrange(0, i as int)),
                        decreases v.len() - i,
                    {
                        let ghost mid = out@;
                        write_repo(&mut out, &v[i]);
                        proof {
                            assert(v@[i as int]@ == rvs[i as int]);
                            assert(rvs.subrange(0, i as int + 1).drop_last() =~= rvs.subrange(
                                0,
                                i as int,
                            ));
                            assert(repos_toml(rvs.subrange(0, i as int + 1)) == repos_toml(
                                rvs.subrange(0, i as int),
                            ) + repo_toml(rvs[i as int]));
                        }
                        i = i + 1;
                    }
                    proof {
                        assert(rvs.subrange(0, rvs.len() as int) =~= rvs);
                        assert(out@ == repos_toml(rvs));
                    }
                }
            },
        }
        out
    }
}

impl Config {
    /// Deserializes a TOML document into a `Config`.
    ///
    /// An empty or whitespace-only document is valid and yields a
    /// configuration with no repositories; a document that is not in the
    /// grammar of [`parse_spec`] — malformed TOML, an unknown key, or a
    /// value that is not a string — is rejected with a parse error.
    pub fn from_toml(input: String) -> (r: Result<Config, RprError>)
        ensures
            match r {
                Ok(c) => parse_spec(input@) == Some(c@),
                Err(e) => e == RprError::ParseError && parse_spec(input@) is None,
            },
    {
        let s: &str = input.as_str();
        let len = s.unicode_len();
        let mut ps = PState {
            repos: Vec::new(),
            present: false,
            frozen: false,
            cur: None,
            tag: LTag::Start,
            id: Vec::new(),
            acc: Vec::new(),
            k: 0,
            uval: 0,
        };
        proof {
            assert(pview(ps) == init_st());
        }
        let mut i: usize = 0;
        while i < len
            invariant
                i <= len,
                len == s@.len(),
                s@ == input@,
                wf(ps),
                pview(ps) == scan(init_st(), input@, i as int),
            decreases len - i,
        {
            let c = s.get_char(i);
            let ok = do_step(&mut ps, c);
            if !ok {
                proof {
                    assert(scan(init_st(), input@, i as int + 1) == st_err());
                    lemma_scan_err_from(init_st(), input@, i as int + 1, input@.len() as int);
                    assert(step(run(input@), '\n') == st_err());
                }
                return Err(RprError::ParseError);
            }
            i = i + 1;
        }
        proof {
            assert(pview(ps) == run(input@));
        }
        if let LTag::SeenCr = ps.tag {
            return Err(RprError::ParseError);
        }
        let ok = do_step(&mut ps, '\n');
        if !ok {
            return Err(RprError::ParseError);
        }
        let ghost st = step(run(input@), '\n');
        proof {
            assert(pview(ps) == st);
        }
        let okc = close_cur(&mut ps);
        if !okc {
            proof {
                assert(close_block(st.doc) is None);
            }
            return Err(RprError::ParseError);
        }
        let PState { repos, present, .. } = ps;
        if present {
            Ok(Config { repository: Some(repos) })
        } else {
            Ok(Config { repository: None })
        }
    }

    /// Computes the document that initializing a configuration file
    /// should leave behind, from the file's current content.
    ///
    /// With no existing content, the result is the serialized default
    /// configuration, which parses back to a configuration with no
    /// repositories. With existing content that parses, the result is
    /// that configuration serialized again — nothing the user declared is
    /// removed or altered. Existing content that does not parse is
    /// rejected rather than overwritten.
    pub fn init_document(existing: Option<&String>) -> (r: Result<String, RprError>)
        ensures
            match existing {
                None => r matches Ok(d) && d@ == config_toml(None) && parse_spec(d@) == Some(
                    None::<Seq<RepoView>>,
                ),
                Some(t) => match parse_spec(t@) {
                    None => r matches Err(e) && e == RprError::ParseError,
                    Some(c) => r matches Ok(d) && d@ == config_toml(c) && parse_spec(d@) == Some(
                        c,
                    ),
                },
            },
    {
        match existing {
            None => {
                let def = Config { repository: None };
                let doc = def.to_toml();
                proof {
                    lemma_round_trip(None);
                }
                Ok(doc)
            },
            Some(t) => {
                match Config::from_toml(t.clone()) {
                    Err(e) => Err(e),
                    Ok(c) => {
                        let doc = c.to_toml();
                        proof {
                            lemma_round_trip(c@);
                        }
                        Ok(doc)
                    },
                }
            },
        }
    }
}

} // verus!
