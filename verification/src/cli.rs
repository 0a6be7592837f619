use vstd::prelude::*;
use crate::json::{json_rows, json_rows_text, kv_rows_view, kv_view};
use crate::pattern::{match_result, regex_capture, regex_valid, Pattern};
use crate::text::{
    contains, copy_str, parse_usize, parse_usize_chars, push_str, replace, replace_str, split,
    split_str, starts_with, starts_with_chars, str_contains, str_eq, to_chars, trim, trim_str,
};

verus! {

/// What the console reads as a request to leave a menu.
pub const EXIT_PATTERN: &'static str = "(?i)exit";

/// What the main menu reads as the choice of a menu.
pub const MODE_PATTERN: &'static str = "-\\w+";

/// A step of the main menu.
pub enum Menu {
    /// An empty line: ask again.
    Skip,
    /// Leave the program.
    Exit,
    /// The list management menu (`-M`).
    Manage,
    /// The data selection menu (`-S`).
    Select,
    /// The trust layer menu (`-IO_OI`, or `-IPFS`).
    Trust,
    /// A `-` word that names no menu.
    Unknown,
    /// A line without a `-` word.
    Invalid,
}

/// A command of the list management menu.
pub enum ManagerCmd {
    /// Add a list from its title, URL, label and status.
    Add(Vec<(String, String)>),
    /// `add` with fewer than four fields.
    Usage,
    /// Refresh the lists that are due.
    Update,
    /// Delete the list at a position.
    Delete(usize),
    /// `delete` without a number.
    InvalidIndex,
    /// Save a relay under a name with its settings.
    AddRelay(String, Vec<(String, String)>),
    /// Remove the relay of a name.
    DelRelay(String),
    Help,
    Unknown,
}

/// What a list management command asks for.
pub enum ManagerAction {
    Add(Seq<(Seq<char>, Seq<char>)>),
    Usage,
    Update,
    Delete(usize),
    InvalidIndex,
    AddRelay(Seq<char>, Seq<(Seq<char>, Seq<char>)>),
    DelRelay(Seq<char>),
    Help,
    Unknown,
}

/// A command of the data selection menu.
pub enum SelectCmd {
    /// Select data with these requests.
    Select(Vec<String>),
    /// Export the selected data to a path (empty for the default one).
    Export(String),
    /// Run the named strategy on the selected data.
    Test(String),
    /// Preview the selected data.
    View,
    Help,
    Unknown,
}

/// What a data selection command asks for.
pub enum SelectAction {
    Select(Seq<Seq<char>>),
    Export(Seq<char>),
    Test(Seq<char>),
    View,
    Help,
    Unknown,
}

/// A command of the trust layer menu.
pub enum TrustCmd {
    /// Take in the shared list of a record hash.
    Import(String),
    /// Share the list at a position.
    Share(usize),
    /// `export` without a number.
    InvalidIndex,
    /// Post an article, privately or not.
    Post(String, bool),
    /// Delete the article of a record hash.
    Delete(String),
    Profile,
    Help,
    Unknown,
}

/// What a trust layer command asks for.
pub enum TrustAction {
    Import(Seq<char>),
    Share(usize),
    InvalidIndex,
    Post(Seq<char>, bool),
    Delete(Seq<char>),
    Profile,
    Help,
    Unknown,
}

// ---------------------------------------------------------------------------
// Specifications.
// ---------------------------------------------------------------------------

pub open spec fn pairs_view(v: Seq<(String, String)>) -> Seq<(Seq<char>, Seq<char>)> {
    v.map_values(|p: (String, String)| kv_view(p))
}

impl View for ManagerCmd {
    type V = ManagerAction;

    open spec fn view(&self) -> ManagerAction {
        match self {
            ManagerCmd::Add(v) => ManagerAction::Add(pairs_view(v@)),
            ManagerCmd::Usage => ManagerAction::Usage,
            ManagerCmd::Update => ManagerAction::Update,
            ManagerCmd::Delete(n) => ManagerAction::Delete(*n),
            ManagerCmd::InvalidIndex => ManagerAction::InvalidIndex,
            ManagerCmd::AddRelay(name, v) => ManagerAction::AddRelay(name@, pairs_view(v@)),
            ManagerCmd::DelRelay(name) => ManagerAction::DelRelay(name@),
            ManagerCmd::Help => ManagerAction::Help,
            ManagerCmd::Unknown => ManagerAction::Unknown,
        }
    }
}

impl View for SelectCmd {
    type V = SelectAction;

    open spec fn view(&self) -> SelectAction {
        match self {
            SelectCmd::Select(v) => SelectAction::Select(v.deep_view()),
            SelectCmd::Export(p) => SelectAction::Export(p@),
            SelectCmd::Test(s) => SelectAction::Test(s@),
            SelectCmd::View => SelectAction::View,
            SelectCmd::Help => SelectAction::Help,
            SelectCmd::Unknown => SelectAction::Unknown,
        }
    }
}

impl View for TrustCmd {
    type V = TrustAction;

    open spec fn view(&self) -> TrustAction {
        match self {
            TrustCmd::Import(h) => TrustAction::Import(h@),
            TrustCmd::Share(n) => TrustAction::Share(*n),
            TrustCmd::InvalidIndex => TrustAction::InvalidIndex,
            TrustCmd::Post(b, p) => TrustAction::Post(b@, *p),
            TrustCmd::Delete(h) => TrustAction::Delete(h@),
            TrustCmd::Profile => TrustAction::Profile,
            TrustCmd::Help => TrustAction::Help,
            TrustCmd::Unknown => TrustAction::Unknown,
        }
    }
}

/// The command with both of its spellings removed (every occurrence).
pub open spec fn stripped(cmd: Seq<char>, a: Seq<char>, b: Seq<char>) -> Seq<char> {
    replace(replace(cmd, a, Seq::empty()), b, Seq::empty())
}

/// The command starts with one of its two spellings.
pub open spec fn opens(cmd: Seq<char>, a: Seq<char>, b: Seq<char>) -> bool {
    starts_with(cmd, a) || starts_with(cmd, b)
}

/// The trimmed pieces between the separators.
pub open spec fn trimmed_pieces(s: Seq<char>, c: char) -> Seq<Seq<char>> {
    split(s, c).map_values(|p: Seq<char>| trim(p))
}

/// The `key=value` settings among the pieces, in order (trimmed).
pub open spec fn kv_settings(parts: Seq<Seq<char>>) -> Seq<(Seq<char>, Seq<char>)>
    decreases parts.len(),
{
    if parts.len() == 0 {
        Seq::empty()
    } else {
        let rest = kv_settings(parts.drop_last());
        let kv = split(parts.last(), '=');
        if kv.len() == 2 {
            rest.push((trim(kv[0]), trim(kv[1])))
        } else {
            rest
        }
    }
}

/// The line asks to leave the menu.
pub open spec fn asks_exit(cmd: Seq<char>) -> bool {
    match_result(EXIT_PATTERN@, cmd) == Some(true)
}

/// The menu a (trimmed) line of the main menu chooses.
pub open spec fn menu_of(cmd: Seq<char>) -> Menu {
    if cmd.len() == 0 {
        Menu::Skip
    } else if asks_exit(cmd) {
        Menu::Exit
    } else {
        match (if regex_valid(MODE_PATTERN@) {
            regex_capture(MODE_PATTERN@, cmd)
        } else {
            None
        }) {
            Some((word, _)) => {
                let mode = replace(word, "-"@, Seq::empty());
                if mode == "M"@ {
                    Menu::Manage
                } else if mode == "S"@ {
                    Menu::Select
                } else if mode == "IO_OI"@ || mode == "IPFS"@ {
                    Menu::Trust
                } else {
                    Menu::Unknown
                }
            },
            None => Menu::Invalid,
        }
    }
}

/// What a list management command asks for.
pub open spec fn manager_action(cmd: Seq<char>) -> ManagerAction {
    if opens(cmd, "add "@, "-A "@) {
        let parts = trimmed_pieces(stripped(cmd, "add "@, "-A "@), ',');
        if parts.len() < 4 {
            ManagerAction::Usage
        } else {
            ManagerAction::Add(
                seq![("title"@, parts[0]), ("URL"@, parts[1]), ("label"@, parts[2]), ("status"@, parts[3])],
            )
        }
    } else if cmd == "update"@ || cmd == "-U"@ {
        ManagerAction::Update
    } else if opens(cmd, "delete "@, "-D "@) {
        match parse_usize(stripped(cmd, "delete "@, "-D "@)) {
            Some(n) => ManagerAction::Delete(n),
            None => ManagerAction::InvalidIndex,
        }
    } else if opens(cmd, "addRelay "@, "-addRelay "@) {
        let parts = trimmed_pieces(stripped(cmd, "addRelay "@, "-addRelay "@), '-');
        ManagerAction::AddRelay(parts[0], kv_settings(parts.skip(1)))
    } else if opens(cmd, "delRelay "@, "-delRelay "@) {
        ManagerAction::DelRelay(stripped(cmd, "delRelay "@, "-delRelay "@))
    } else if cmd == "--help"@ {
        ManagerAction::Help
    } else {
        ManagerAction::Unknown
    }
}

/// What a data selection command asks for.
pub open spec fn select_action(cmd: Seq<char>) -> SelectAction {
    if opens(cmd, "select "@, "-D "@) {
        SelectAction::Select(trimmed_pieces(stripped(cmd, "select "@, "-D "@), ','))
    } else if opens(cmd, "export "@, "-E "@) {
        SelectAction::Export(stripped(cmd, "export "@, "-E "@))
    } else if opens(cmd, "test "@, "-T "@) {
        SelectAction::Test(stripped(cmd, "test "@, "-T "@))
    } else if cmd == "view"@ || cmd == "-detail"@ {
        SelectAction::View
    } else if cmd == "--help"@ {
        SelectAction::Help
    } else {
        SelectAction::Unknown
    }
}

/// What a trust layer command asks for.
pub open spec fn trust_action(cmd: Seq<char>) -> TrustAction {
    if opens(cmd, "import "@, "-I "@) {
        TrustAction::Import(stripped(cmd, "import "@, "-I "@))
    } else if opens(cmd, "export "@, "-O "@) {
        match parse_usize(stripped(cmd, "export "@, "-O "@)) {
            Some(n) => TrustAction::Share(n),
            None => TrustAction::InvalidIndex,
        }
    } else if opens(cmd, "post "@, "-P "@) {
        let clean = stripped(cmd, "post "@, "-P "@);
        TrustAction::Post(trim(replace(clean, "--private"@, Seq::empty())), contains(clean, "--private"@))
    } else if starts_with(cmd, "delete "@) {
        TrustAction::Delete(replace(cmd, "delete "@, Seq::empty()))
    } else if cmd == "profile"@ {
        TrustAction::Profile
    } else if cmd == "--help"@ {
        TrustAction::Help
    } else {
        TrustAction::Unknown
    }
}

/// The text with every leading repetition of `p` removed.
pub open spec fn strip_leading(s: Seq<char>, p: Seq<char>) -> Seq<char>
    decreases s.len(),
{
    if p.len() > 0 && starts_with(s, p) {
        strip_leading(s.skip(p.len() as int), p)
    } else {
        s
    }
}

/// The query of a line given on the standard input: trimmed, without its
/// leading `q=`.
pub open spec fn query_of(line: Seq<char>) -> Seq<char> {
    strip_leading(trim(line), "q="@)
}

// ---------------------------------------------------------------------------
// Implementation.
// ---------------------------------------------------------------------------

fn starts(s: &str, p: &str) -> (r: bool)
    ensures
        r == starts_with(s@, p@),
{
    let a = to_chars(s);
    let b = to_chars(p);
    starts_with_chars(a.as_slice(), b.as_slice())
}

fn strip(cmd: &str, a: &str, b: &str) -> (r: String)
    requires
        a@.len() > 0,
        b@.len() > 0,
    ensures
        r@ == stripped(cmd@, a@, b@),
{
    proof {
        reveal_strlit("");
        assert(""@ =~= Seq::<char>::empty());
    }
    let x = replace_str(cmd, a, "");
    replace_str(x.as_str(), b, "")
}

fn pieces(s: &str, c: char) -> (r: Vec<String>)
    ensures
        r.deep_view() == trimmed_pieces(s@, c),
{
    let raw = split_str(s, c);
    let ghost sp = split(s@, c);
    let mut out: Vec<String> = Vec::new();
    let n = raw.len();
    for i in 0..n
        invariant
            n == raw@.len(),
            n == sp.len(),
            sp == split(s@, c),
            forall|k: int| 0 <= k < n ==> #[trigger] raw@[k]@ == sp[k],
            out.deep_view() =~= trimmed_pieces(s@, c).take(i as int),
    {
        let ghost before = out.deep_view();
        out.push(trim_str(raw[i].as_str()));
        assert(out.deep_view() =~= before.push(trim(sp[i as int])));
        assert(trimmed_pieces(s@, c).take(i + 1) =~= trimmed_pieces(s@, c).take(i as int).push(
            trim(sp[i as int]),
        ));
    }
    assert(trimmed_pieces(s@, c).take(n as int) =~= trimmed_pieces(s@, c));
    out
}

fn settings(parts: &Vec<String>, from: usize) -> (r: Vec<(String, String)>)
    requires
        from <= parts@.len(),
    ensures
        pairs_view(r@) == kv_settings(parts.deep_view().skip(from as int)),
{
    let ghost dv = parts.deep_view();
    let mut out: Vec<(String, String)> = Vec::new();
    let n = parts.len();
    let mut i = from;
    assert(dv.subrange(from as int, from as int) =~= Seq::<Seq<char>>::empty());
    while i < n
        invariant
            from <= i <= n,
            n == parts@.len(),
            dv == parts.deep_view(),
            pairs_view(out@) =~= kv_settings(dv.subrange(from as int, i as int)),
        decreases n - i,
    {
        let ghost pre = dv.subrange(from as int, i as int);
        assert(dv.subrange(from as int, i + 1).drop_last() =~= pre);
        assert(dv.subrange(from as int, i + 1).last() == parts@[i as int]@);
        let kv = split_str(parts[i].as_str(), '=');
        if kv.len() == 2 {
            let ghost before = out@;
            out.push((trim_str(kv[0].as_str()), trim_str(kv[1].as_str())));
            assert(pairs_view(out@) =~= pairs_view(before).push(
                (trim(split(parts@[i as int]@, '=')[0]), trim(split(parts@[i as int]@, '=')[1])),
            ));
        }
        i = i + 1;
    }
    assert(dv.subrange(from as int, n as int) =~= dv.skip(from as int));
    out
}

/// Whether a line asks to leave the menu (it holds `exit`, in any case).
pub fn is_exit(cmd: &str) -> (r: bool)
    ensures
        r == asks_exit(cmd@),
{
    match crate::pattern::match_text(EXIT_PATTERN, cmd) {
        Some(b) => b,
        None => false,
    }
}

/// The menu a trimmed line of the main menu chooses: nothing for an empty
/// line, leaving for `exit`, else by its first `-` word.
pub fn menu_choice(cmd: &str) -> (r: Menu)
    ensures
        r == menu_of(cmd@),
{
    proof {
        reveal_strlit("-");
        reveal_strlit("");
        assert(""@ =~= Seq::<char>::empty());
    }
    if cmd.is_empty() {
        return Menu::Skip;
    }
    if is_exit(cmd) {
        return Menu::Exit;
    }
    let cap = match Pattern::compile(MODE_PATTERN) {
        Some(p) => p.captures(cmd),
        None => None,
    };
    match cap {
        Some((word, _)) => {
            let mode = replace_str(word.as_str(), "-", "");
            if str_eq(mode.as_str(), "M") {
                Menu::Manage
            } else if str_eq(mode.as_str(), "S") {
                Menu::Select
            } else if str_eq(mode.as_str(), "IO_OI") || str_eq(mode.as_str(), "IPFS") {
                Menu::Trust
            } else {
                Menu::Unknown
            }
        },
        None => Menu::Invalid,
    }
}

/// Reads a (trimmed) command of the list management menu.
pub fn manager_command(cmd: &str) -> (r: ManagerCmd)
    ensures
        r@ == manager_action(cmd@),
{
    proof {
        reveal_strlit("add ");
        reveal_strlit("-A ");
        reveal_strlit("delete ");
        reveal_strlit("-D ");
        reveal_strlit("addRelay ");
        reveal_strlit("-addRelay ");
        reveal_strlit("delRelay ");
        reveal_strlit("-delRelay ");
        reveal_strlit("title");
        reveal_strlit("URL");
        reveal_strlit("label");
        reveal_strlit("status");
    }
    if starts(cmd, "add ") || starts(cmd, "-A ") {
        let clean = strip(cmd, "add ", "-A ");
        let parts = pieces(clean.as_str(), ',');
        if parts.len() < 4 {
            return ManagerCmd::Usage;
        }
        let mut v: Vec<(String, String)> = Vec::new();
        v.push((copy_str("title"), copy_str(parts[0].as_str())));
        v.push((copy_str("URL"), copy_str(parts[1].as_str())));
        v.push((copy_str("label"), copy_str(parts[2].as_str())));
        v.push((copy_str("status"), copy_str(parts[3].as_str())));
        assert(pairs_view(v@) =~= seq![
            ("title"@, parts@[0]@),
            ("URL"@, parts@[1]@),
            ("label"@, parts@[2]@),
            ("status"@, parts@[3]@),
        ]);
        return ManagerCmd::Add(v);
    }
    if str_eq(cmd, "update") || str_eq(cmd, "-U") {
        return ManagerCmd::Update;
    }
    if starts(cmd, "delete ") || starts(cmd, "-D ") {
        let clean = strip(cmd, "delete ", "-D ");
        let c = to_chars(clean.as_str());
        return match parse_usize_chars(c.as_slice()) {
            Some(n) => ManagerCmd::Delete(n),
            None => ManagerCmd::InvalidIndex,
        };
    }
    if starts(cmd, "addRelay ") || starts(cmd, "-addRelay ") {
        let clean = strip(cmd, "addRelay ", "-addRelay ");
        let parts = pieces(clean.as_str(), '-');
        proof {
            crate::text::lemma_split_nonempty(clean@, '-');
        }
        let name = copy_str(parts[0].as_str());
        let kv = settings(&parts, 1);
        return ManagerCmd::AddRelay(name, kv);
    }
    if starts(cmd, "delRelay ") || starts(cmd, "-delRelay ") {
        return ManagerCmd::DelRelay(strip(cmd, "delRelay ", "-delRelay "));
    }
    if str_eq(cmd, "--help") {
        return ManagerCmd::Help;
    }
    ManagerCmd::Unknown
}

/// Reads a (trimmed) command of the data selection menu.
pub fn select_command(cmd: &str) -> (r: SelectCmd)
    ensures
        r@ == select_action(cmd@),
{
    proof {
        reveal_strlit("select ");
        reveal_strlit("-D ");
        reveal_strlit("export ");
        reveal_strlit("-E ");
        reveal_strlit("test ");
        reveal_strlit("-T ");
    }
    if starts(cmd, "select ") || starts(cmd, "-D ") {
        let clean = strip(cmd, "select ", "-D ");
        return SelectCmd::Select(pieces(clean.as_str(), ','));
    }
    if starts(cmd, "export ") || starts(cmd, "-E ") {
        return SelectCmd::Export(strip(cmd, "export ", "-E "));
    }
    if starts(cmd, "test ") || starts(cmd, "-T ") {
        return SelectCmd::Test(strip(cmd, "test ", "-T "));
    }
    if str_eq(cmd, "view") || str_eq(cmd, "-detail") {
        return SelectCmd::View;
    }
    if str_eq(cmd, "--help") {
        return SelectCmd::Help;
    }
    SelectCmd::Unknown
}

/// Reads a (trimmed) command of the trust layer menu.
pub fn trust_command(cmd: &str) -> (r: TrustCmd)
    ensures
        r@ == trust_action(cmd@),
{
    proof {
        reveal_strlit("import ");
        reveal_strlit("-I ");
        reveal_strlit("export ");
        reveal_strlit("-O ");
        reveal_strlit("post ");
        reveal_strlit("-P ");
        reveal_strlit("--private");
        reveal_strlit("delete ");
        reveal_strlit("");
        assert(""@ =~= Seq::<char>::empty());
    }
    if starts(cmd, "import ") || starts(cmd, "-I ") {
        return TrustCmd::Import(strip(cmd, "import ", "-I "));
    }
    if starts(cmd, "export ") || starts(cmd, "-O ") {
        let clean = strip(cmd, "export ", "-O ");
        let c = to_chars(clean.as_str());
        return match parse_usize_chars(c.as_slice()) {
            Some(n) => TrustCmd::Share(n),
            None => TrustCmd::InvalidIndex,
        };
    }
    if starts(cmd, "post ") || starts(cmd, "-P ") {
        let clean = strip(cmd, "post ", "-P ");
        let private = str_contains(clean.as_str(), "--private");
        let body = replace_str(clean.as_str(), "--private", "");
        return TrustCmd::Post(trim_str(body.as_str()), private);
    }
    if starts(cmd, "delete ") {
        return TrustCmd::Delete(replace_str(cmd, "delete ", ""));
    }
    if str_eq(cmd, "profile") {
        return TrustCmd::Profile;
    }
    if str_eq(cmd, "--help") {
        return TrustCmd::Help;
    }
    TrustCmd::Unknown
}

/// The query of a line given on the standard input: trimmed, without its
/// leading `q=` (however often repeated).
pub fn query(line: &str) -> (r: String)
    ensures
        r@ == query_of(line@),
{
    proof {
        reveal_strlit("q=");
    }
    let t = trim_str(line);
    let c = to_chars(t.as_str());
    let n = c.len();
    let mut i: usize = 0;
    assert(c@.skip(0) =~= c@);
    while n - i >= 2 && c[i] == 'q' && c[i + 1] == '='
        invariant
            i <= n,
            n == c@.len(),
            c@ == t@,
            strip_leading(c@.skip(i as int), "q="@) == strip_leading(t@, "q="@),
        decreases n - i,
    {
        proof {
            reveal_strlit("q=");
            let s = c@.skip(i as int);
            assert(s[0] == 'q' && s[1] == '=');
            assert(s.take(2) =~= "q="@);
            assert(s.skip(2) =~= c@.skip(i + 2));
        }
        i = i + 2;
    }
    proof {
        let s = c@.skip(i as int);
        if starts_with(s, "q="@) {
            assert(s.take(2)[0] == 'q' && s.take(2)[1] == '=');
            assert(s[0] == c@[i as int] && s[1] == c@[i + 1]);
        }
    }
    let mut out: Vec<char> = Vec::new();
    let mut j = i;
    while j < n
        invariant
            i <= j <= n,
            n == c@.len(),
            out@ == c@.subrange(i as int, j as int),
        decreases n - j,
    {
        out.push(c[j]);
        assert(c@.subrange(i as int, j + 1) =~= c@.subrange(i as int, j as int).push(c@[j as int]));
        j = j + 1;
    }
    assert(c@.subrange(i as int, n as int) =~= c@.skip(i as int));
    crate::text::from_chars(out.as_slice())
}

/// The first items of a column for a preview: at most ten.
pub fn preview(items: &Vec<String>) -> (r: Vec<String>)
    ensures
        r.deep_view() == items.deep_view().take(if items@.len() < 10 { items@.len() as int } else { 10 }),
{
    let n = if items.len() < 10 { items.len() } else { 10 };
    let mut out: Vec<String> = Vec::new();
    for i in 0..n
        invariant
            n <= items@.len(),
            out.deep_view() =~= items.deep_view().take(i as int),
    {
        let ghost before = out.deep_view();
        out.push(copy_str(items[i].as_str()));
        assert(out.deep_view() =~= before.push(items@[i as int]@));
        assert(items.deep_view().take(i + 1) =~= items.deep_view().take(i as int).push(items@[i as int]@));
    }
    out
}

/// A search result row as members: each header paired with the cell under
/// it, as far as both reach.
pub open spec fn row_pairs(head: Seq<Seq<char>>, row: Seq<Seq<char>>) -> Seq<(Seq<char>, Seq<char>)> {
    Seq::new(if row.len() < head.len() { row.len() } else { head.len() }, |i: int| (head[i], row[i]))
}

/// The rows of a search result (the header first) as members, one object
/// per row after the header.
pub open spec fn search_pairs(data: Seq<Seq<Seq<char>>>) -> Seq<Seq<(Seq<char>, Seq<char>)>> {
    data.skip(1).map_values(|row: Seq<Seq<char>>| row_pairs(data[0], row))
}

/// The JSON answer to a search: `[]` for an empty result, else an array
/// with one object per row after the header, each header a key for the
/// cell under it.
pub fn rows_json(data: &Vec<Vec<String>>) -> (r: String)
    ensures
        r@ == (if data@.len() == 0 { "[]"@ } else { json_rows_text(search_pairs(data.deep_view())) }),
{
    if data.len() == 0 {
        return copy_str("[]");
    }
    let ghost dv = data.deep_view();
    let head = &data[0];
    let mut rows: Vec<Vec<(String, String)>> = Vec::new();
    let n = data.len();
    for k in 1..n
        invariant
            n == data@.len(),
            n >= 1,
            dv == data.deep_view(),
            head == &data@[0],
            kv_rows_view(rows@) =~= search_pairs(dv).take(k - 1),
    {
        let row = &data[k];
        let m = if row.len() < head.len() { row.len() } else { head.len() };
        let mut ps: Vec<(String, String)> = Vec::new();
        for i in 0..m
            invariant
                m <= row@.len(),
                m <= head@.len(),
                row == &data@[k as int],
                head == &data@[0],
                ps@.map_values(|p: (String, String)| kv_view(p)) =~= row_pairs(dv[0], dv[k as int]).take(i as int),
                dv == data.deep_view(),
                k < data@.len(),
        {
            let ghost before = ps@;
            let pair = (copy_str(head[i].as_str()), copy_str(row[i].as_str()));
            ps.push(pair);
            assert(ps@ =~= before.push(pair));
            assert(kv_view(pair) == (dv[0][i as int], dv[k as int][i as int]));
            assert(row_pairs(dv[0], dv[k as int]).take(i + 1) =~= row_pairs(dv[0], dv[k as int]).take(i as int).push(
                (dv[0][i as int], dv[k as int][i as int]),
            ));
        }
        assert(row_pairs(dv[0], dv[k as int]).take(m as int) =~= row_pairs(dv[0], dv[k as int]));
        rows.push(ps);
        assert(search_pairs(dv).take(k as int) =~= search_pairs(dv).take(k - 1).push(row_pairs(dv[0], dv[k as int])));
    }
    assert(search_pairs(dv).take(n - 1) =~= search_pairs(dv));
    json_rows(&rows)
}

} // verus!
