//! Services: how the host's service manager is addressed, how its answers
//! are read, and how the list of services is put together from the services
//! it has loaded and the property lists found on disk.

use vstd::prelude::*;
use vstd::string::StringExecFns;
use crate::numeral::{decimal, parse_i32, parse_i32_range, push_decimal};
use crate::text::{
    chars_of, ends_with, holds, lemma_lex_irreflexive, lemma_lex_transitive, lex_less,
    line_bounds, lines, range_ends_with, same_text, split_words, starts_with, str_holds,
    str_starts_with, string_less, string_of_range, suffixes_start, slice_text, text_of, texts,
    trim_bounds, trimmed, without_suffixes, words,
};

verus! {

/// The category of the property list at `path`, from the directory that
/// holds it.
pub open spec fn category_of(path: Seq<char>) -> Seq<char> {
    if holds(path, "/Library/LaunchAgents"@) {
        if starts_with(path, "/System"@) {
            "system-agents"@
        } else if starts_with(path, "/Library"@) {
            "global-agents"@
        } else {
            "user-agents"@
        }
    } else if holds(path, "/Library/LaunchDaemons"@) {
        if starts_with(path, "/System"@) {
            "system-daemons"@
        } else {
            "global-daemons"@
        }
    } else {
        "user-agents"@
    }
}

/// Tells the category of a property list from its path.
pub fn categorize_path(path: &str) -> (category: &'static str)
    ensures
        category@ == category_of(path@),
{
    let chars = chars_of(path);
    if str_holds(&chars, "/Library/LaunchAgents") {
        if str_starts_with(&chars, "/System") {
            "system-agents"
        } else if str_starts_with(&chars, "/Library") {
            "global-agents"
        } else {
            "user-agents"
        }
    } else if str_holds(&chars, "/Library/LaunchDaemons") {
        if str_starts_with(&chars, "/System") {
            "system-daemons"
        } else {
            "global-daemons"
        }
    } else {
        "user-agents"
    }
}

/// What the service manager says of a service that it has loaded.
#[derive(Debug, PartialEq, Eq, Clone, Copy)]
pub struct LoadedService {
    /// The process that runs it, if one does.
    pub pid: Option<i32>,
    /// How it last ended, if it has.
    pub exit_status: Option<i32>,
}

/// The state of a service: `running` with a process, `error` after an exit
/// that was no success, `stopped` otherwise and where it is not loaded.
pub open spec fn status_of(loaded: Option<LoadedService>) -> Seq<char> {
    match loaded {
        Some(l) => if l.pid is Some && l.pid->0 > 0 {
            "running"@
        } else if l.exit_status is Some && l.exit_status->0 != 0 {
            "error"@
        } else {
            "stopped"@
        },
        None => "stopped"@,
    }
}

/// Tells the state of a service from what the service manager says of it.
pub fn service_status(loaded: Option<LoadedService>) -> (status: &'static str)
    ensures
        status@ == status_of(loaded),
{
    match loaded {
        Some(l) => {
            let runs = match l.pid {
                Some(p) => p > 0,
                None => false,
            };
            let failed = match l.exit_status {
                Some(e) => e != 0,
                None => false,
            };
            if runs {
                "running"
            } else if failed {
                "error"
            } else {
                "stopped"
            }
        },
        None => "stopped",
    }
}

/// Whether a file of this name is a property list, enabled or disabled.
pub open spec fn is_plist_name(name: Seq<char>) -> bool {
    ends_with(name, ".plist"@) || ends_with(name, ".plist.disabled"@)
}

/// The label of the service that the property list of this name declares:
/// the name without the endings `.disabled` and `.plist`.
pub open spec fn label_of(name: Seq<char>) -> Seq<char> {
    without_suffixes(without_suffixes(name, ".disabled"@), ".plist"@)
}

/// The label of the service that a file declares, or `None` where the file
/// is no property list.
pub fn plist_label(name: &str) -> (label: Option<String>)
    ensures
        match label {
            Some(l) => is_plist_name(name@) && l@ == label_of(name@),
            None => !is_plist_name(name@),
        },
{
    let chars = chars_of(name);
    let n: usize = chars.len();
    assert(chars@.take(n as int) == chars@);
    let plist = chars_of(".plist");
    let disabled = chars_of(".plist.disabled");
    if range_ends_with(&chars, n, &plist) || range_ends_with(&chars, n, &disabled) {
        let k = suffixes_start(&chars, n, ".disabled");
        let j = suffixes_start(&chars, k, ".plist");
        assert(chars@.subrange(0, j as int) == chars@.take(j as int));
        Some(string_of_range(&chars, 0, j))
    } else {
        None
    }
}

/// Whether the property list at `path` is disabled.
pub open spec fn is_disabled(path: Seq<char>) -> bool {
    ends_with(path, ".disabled"@)
}

/// The path under which a property list is enabled: `path` without the
/// ending `.disabled`.
pub open spec fn enabled_path_of(path: Seq<char>) -> Seq<char> {
    without_suffixes(path, ".disabled"@)
}

/// Whether the property list at `path` is disabled.
pub fn path_is_disabled(path: &str) -> (r: bool)
    ensures
        r == is_disabled(path@),
{
    let chars = chars_of(path);
    assert(chars@.take(chars.len() as int) == chars@);
    let disabled = chars_of(".disabled");
    range_ends_with(&chars, chars.len(), &disabled)
}

/// The path under which the property list at `path` is enabled, and whether
/// the file has to be renamed to it first.
pub fn enabled_path(path: &str) -> (r: (String, bool))
    ensures
        r.0@ == enabled_path_of(path@),
        r.1 == is_disabled(path@),
{
    let chars = chars_of(path);
    let n: usize = chars.len();
    assert(chars@.take(n as int) == chars@);
    let disabled = chars_of(".disabled");
    let rename = range_ends_with(&chars, n, &disabled);
    let k = suffixes_start(&chars, n, ".disabled");
    assert(chars@.subrange(0, k as int) == chars@.take(k as int));
    (string_of_range(&chars, 0, k), rename)
}

/// How a service of the user `uid` is addressed.
pub open spec fn gui_target_of(uid: u32, label: Seq<char>) -> Seq<char> {
    "gui/"@ + decimal(uid as nat) + seq!['/'] + label
}

/// How a service of the system is addressed.
pub open spec fn system_target_of(label: Seq<char>) -> Seq<char> {
    "system/"@ + label
}

/// The address of the service `label` of the user `uid`.
pub fn gui_target(uid: u32, label: &str) -> (target: String)
    ensures
        target@ == gui_target_of(uid, label@),
{
    let mut target = "gui/".to_owned();
    push_decimal(&mut target, uid as u64);
    target.push('/');
    target.append(label);
    target
}

/// The address of the service `label` of the system.
pub fn system_target(label: &str) -> (target: String)
    ensures
        target@ == system_target_of(label@),
{
    let mut target = "system/".to_owned();
    target.append(label);
    target
}

/// Whether the service manager answered that it knows no such service.
pub fn service_not_found(answer: &str) -> (r: bool)
    ensures
        r == holds(answer@, "Could not find service"@),
{
    let chars = chars_of(answer);
    str_holds(&chars, "Could not find service")
}


/// The parts, with one space between each two.
pub open spec fn joined(parts: Seq<Seq<char>>) -> Seq<char>
    decreases parts.len(),
{
    if parts.len() == 0 {
        Seq::empty()
    } else if parts.len() == 1 {
        parts[0]
    } else {
        joined(parts.drop_last()) + seq![' '] + parts.last()
    }
}

/// What one line of the service manager's list says: a process id, an exit
/// status and a label, which may hold spaces. A field that is no integer,
/// such as `-`, is absent. A line of fewer than three words says nothing.
pub open spec fn loaded_row(line: Seq<char>) -> Option<(Seq<char>, LoadedService)> {
    let w = words(line);
    if w.len() >= 3 {
        Some(
            (
                joined(w.skip(2)),
                LoadedService { pid: parse_i32(w[0]), exit_status: parse_i32(w[1]) },
            ),
        )
    } else {
        None
    }
}

/// A table of loaded services by label.
pub type LoadedTable = Seq<(Seq<char>, LoadedService)>;

/// The index of the first row of `table` for `label`, or the number of rows
/// where there is none.
pub open spec fn position_of(table: LoadedTable, label: Seq<char>) -> int
    decreases table.len(),
{
    if table.len() == 0 || table[0].0 == label {
        0
    } else {
        1 + position_of(table.skip(1), label)
    }
}

/// What `table` says of `label`.
pub open spec fn lookup(table: LoadedTable, label: Seq<char>) -> Option<LoadedService> {
    let i = position_of(table, label);
    if 0 <= i < table.len() {
        Some(table[i].1)
    } else {
        None
    }
}

/// `table` with `label` set to `info`: in its row where it has one, in a new
/// last row otherwise.
pub open spec fn upsert(table: LoadedTable, label: Seq<char>, info: LoadedService) -> LoadedTable {
    let i = position_of(table, label);
    if 0 <= i < table.len() {
        table.update(i, (label, info))
    } else {
        table.push((label, info))
    }
}

/// The table that the lines `rows` give, a later line replacing an earlier
/// one for the same label.
pub open spec fn table_of(rows: Seq<Seq<char>>) -> LoadedTable
    decreases rows.len(),
{
    if rows.len() == 0 {
        Seq::empty()
    } else {
        let before = table_of(rows.drop_last());
        match loaded_row(rows.last()) {
            Some((label, info)) => upsert(before, label, info),
            None => before,
        }
    }
}

/// The table that the service manager's list gives: the output is trimmed,
/// and its first line, the heading, is passed over.
pub open spec fn loaded_table(output: Seq<char>) -> LoadedTable {
    let all = lines(trimmed(output));
    if all.len() > 0 {
        table_of(all.skip(1))
    } else {
        Seq::empty()
    }
}

/// What a table holds, as mathematical values.
pub open spec fn table_view(table: Seq<(String, LoadedService)>) -> LoadedTable {
    table.map_values(|row: (String, LoadedService)| (row.0@, row.1))
}

/// An index with no row for `label` before it, that is the end or holds a
/// row for `label`, is the position of `label`.
pub proof fn lemma_position_of(table: LoadedTable, label: Seq<char>, k: int)
    requires
        0 <= k <= table.len(),
        forall|i: int| 0 <= i < k ==> (#[trigger] table[i]).0 != label,
        k == table.len() || table[k].0 == label,
    ensures
        position_of(table, label) == k,
    decreases k,
{
    if k > 0 {
        lemma_position_of(table.skip(1), label, k - 1);
    }
}

/// The index of the first row of `table` for `label`, or the number of rows
/// where there is none.
fn find_label(table: &Vec<(String, LoadedService)>, label: &str) -> (i: usize)
    ensures
        i == position_of(table_view(table@), label@),
        i <= table.len(),
        i < table.len() ==> table@[i as int].0@ == label@,
{
    let mut i: usize = 0;
    while i < table.len()
        invariant
            i <= table.len(),
            forall|k: int| 0 <= k < i ==> (#[trigger] table_view(table@)[k]).0 != label@,
        decreases table.len() - i,
    {
        if same_text(table[i].0.as_str(), label) {
            proof {
                lemma_position_of(table_view(table@), label@, i as int);
            }
            return i;
        }
        i += 1;
    }
    proof {
        lemma_position_of(table_view(table@), label@, i as int);
    }
    i
}

/// What `table` says of the service `label`.
pub fn lookup_loaded(table: &Vec<(String, LoadedService)>, label: &str) -> (r: Option<
    LoadedService,
>)
    ensures
        r == lookup(table_view(table@), label@),
{
    let i = find_label(table, label);
    if i < table.len() {
        Some(table[i].1)
    } else {
        None
    }
}

/// The words `bounds[from..]` of `chars`, with one space between each two.
fn join_words(chars: &Vec<char>, bounds: &Vec<(usize, usize)>, from: usize) -> (text: String)
    requires
        from < bounds.len(),
        forall|i: int|
            0 <= i < bounds@.len() ==> (#[trigger] bounds@[i]).0 <= bounds@[i].1 <= chars.len(),
    ensures
        text@ == joined(
            bounds@.skip(from as int).map_values(
                |b: (usize, usize)| chars@.subrange(b.0 as int, b.1 as int),
            ),
        ),
{
    let ghost parts = bounds@.skip(from as int).map_values(
        |b: (usize, usize)| chars@.subrange(b.0 as int, b.1 as int),
    );
    let mut text = string_of_range(chars, bounds[from].0, bounds[from].1);
    assert(parts.take(1) == seq![parts[0]]);
    let mut i: usize = from + 1;
    while i < bounds.len()
        invariant
            from < i <= bounds.len(),
            forall|k: int|
                0 <= k < bounds@.len() ==> (#[trigger] bounds@[k]).0 <= bounds@[k].1
                    <= chars.len(),
            parts == bounds@.skip(from as int).map_values(
                |b: (usize, usize)| chars@.subrange(b.0 as int, b.1 as int),
            ),
            text@ == joined(parts.take(i - from)),
        decreases bounds.len() - i,
    {
        text.push(' ');
        let word = string_of_range(chars, bounds[i].0, bounds[i].1);
        text.append(word.as_str());
        proof {
            let next = parts.take(i - from + 1);
            assert(next.drop_last() == parts.take(i - from));
            assert(next.last() == word@);
        }
        i += 1;
    }
    assert(parts.take(bounds.len() - from) == parts);
    text
}

/// Reads one line of the service manager's list.
fn parse_loaded_row(chars: &Vec<char>, from: usize, to: usize) -> (row: Option<
    (String, LoadedService),
>)
    requires
        from <= to <= chars.len(),
    ensures
        match row {
            Some(r) => loaded_row(chars@.subrange(from as int, to as int)) == Some((r.0@, r.1)),
            None => loaded_row(chars@.subrange(from as int, to as int)) is None,
        },
{
    let bounds = split_words(chars, from, to);
    if bounds.len() < 3 {
        return None;
    }
    let ghost w = words(chars@.subrange(from as int, to as int));
    let pid = parse_i32_range(chars, bounds[0].0, bounds[0].1);
    let exit_status = parse_i32_range(chars, bounds[1].0, bounds[1].1);
    let label = join_words(chars, &bounds, 2);
    proof {
        assert(bounds@.skip(2).map_values(
            |b: (usize, usize)| chars@.subrange(b.0 as int, b.1 as int),
        ) =~= w.skip(2));
    }
    Some((label, LoadedService { pid, exit_status }))
}

/// Reads the service manager's list of loaded services.
pub fn parse_loaded_services(output: &str) -> (table: Vec<(String, LoadedService)>)
    ensures
        table_view(table@) == loaded_table(output@),
{
    let chars = chars_of(output);
    assert(chars@.subrange(0, chars.len() as int) == chars@);
    let (a, b) = trim_bounds(&chars, 0, chars.len());
    let bounds = line_bounds(&chars, a, b);
    let ghost all = lines(trimmed(output@));
    let mut table: Vec<(String, LoadedService)> = Vec::new();
    if bounds.len() == 0 {
        assert(table_view(table@) == Seq::<(Seq<char>, LoadedService)>::empty());
        return table;
    }
    let ghost rows = all.skip(1);
    let mut k: usize = 1;
    assert(rows.take(0) == Seq::<Seq<char>>::empty());
    assert(table_view(table@) == Seq::<(Seq<char>, LoadedService)>::empty());
    while k < bounds.len()
        invariant
            1 <= k <= bounds.len(),
            bounds@.len() == all.len(),
            rows == all.skip(1),
            forall|i: int|
                0 <= i < bounds@.len() ==> {
                    &&& (#[trigger] bounds@[i]).0 <= bounds@[i].1 <= chars.len()
                    &&& chars@.subrange(bounds@[i].0 as int, bounds@[i].1 as int) == all[i]
                },
            table_view(table@) == table_of(rows.take(k - 1)),
        decreases bounds.len() - k,
    {
        let ghost before = table_view(table@);
        proof {
            let next = rows.take(k as int);
            assert(next.drop_last() == rows.take(k - 1));
            assert(next.last() == all[k as int]);
        }
        match parse_loaded_row(&chars, bounds[k].0, bounds[k].1) {
            Some(row) => {
                let i = find_label(&table, row.0.as_str());
                if i < table.len() {
                    table[i].1 = row.1;
                    assert(table_view(table@) =~= before.update(i as int, (row.0@, row.1)));
                } else {
                    table.push(row);
                    assert(table_view(table@) == before.push((row.0@, row.1)));
                }
            },
            None => {},
        }
        k += 1;
    }
    assert(rows.take(bounds.len() - 1) == rows);
    table
}


/// What the service manager prints of one service.
#[derive(Debug, PartialEq, Eq)]
pub struct ServiceDetail {
    pub path: Option<String>,
    /// What the service manager calls the `type`.
    pub kind: Option<String>,
    pub bundle_id: Option<String>,
    pub state: Option<String>,
    /// Names and values of the environment; none is read so far.
    pub environment: Vec<(String, String)>,
    pub last_exit_reason: Option<String>,
}

/// What a `ServiceDetail` holds, as mathematical values.
pub struct ServiceDetailView {
    pub path: Option<Seq<char>>,
    pub kind: Option<Seq<char>>,
    pub bundle_id: Option<Seq<char>>,
    pub state: Option<Seq<char>>,
    pub environment: Seq<(Seq<char>, Seq<char>)>,
    pub last_exit_reason: Option<Seq<char>>,
}

impl View for ServiceDetail {
    type V = ServiceDetailView;

    open spec fn view(&self) -> ServiceDetailView {
        ServiceDetailView {
            path: text_of(self.path),
            kind: text_of(self.kind),
            bundle_id: text_of(self.bundle_id),
            state: text_of(self.state),
            environment: self.environment@.map_values(|p: (String, String)| (p.0@, p.1@)),
            last_exit_reason: text_of(self.last_exit_reason),
        }
    }
}

/// A detail of which nothing is known.
pub open spec fn no_detail() -> ServiceDetailView {
    ServiceDetailView {
        path: None,
        kind: None,
        bundle_id: None,
        state: None,
        environment: Seq::empty(),
        last_exit_reason: None,
    }
}

/// `detail` after `line` is read: a trimmed line that begins with the name
/// of a field and ` = ` sets that field to what follows. The first name in
/// the order below that fits decides.
pub open spec fn detail_with(detail: ServiceDetailView, line: Seq<char>) -> ServiceDetailView {
    let t = trimmed(line);
    if starts_with(t, "path = "@) {
        ServiceDetailView { path: Some(t.skip("path = "@.len() as int)), ..detail }
    } else if starts_with(t, "type = "@) {
        ServiceDetailView { kind: Some(t.skip("type = "@.len() as int)), ..detail }
    } else if starts_with(t, "bundle id = "@) {
        ServiceDetailView { bundle_id: Some(t.skip("bundle id = "@.len() as int)), ..detail }
    } else if starts_with(t, "state = "@) {
        ServiceDetailView { state: Some(t.skip("state = "@.len() as int)), ..detail }
    } else if starts_with(t, "last exit reason = "@) {
        ServiceDetailView {
            last_exit_reason: Some(t.skip("last exit reason = "@.len() as int)),
            ..detail
        }
    } else {
        detail
    }
}

/// The detail that the lines `rows` give, a later line replacing an earlier
/// one for the same field.
pub open spec fn detail_of(rows: Seq<Seq<char>>) -> ServiceDetailView
    decreases rows.len(),
{
    if rows.len() == 0 {
        no_detail()
    } else {
        detail_with(detail_of(rows.drop_last()), rows.last())
    }
}

/// The detail that the service manager's answer gives, or `None` where the
/// answer is empty once trimmed.
pub open spec fn service_detail(answer: Seq<char>) -> Option<ServiceDetailView> {
    let t = trimmed(answer);
    if t.len() == 0 {
        None
    } else {
        Some(detail_of(lines(t)))
    }
}

/// What follows `prefix` in `chars[from..to]`, where that begins with it.
fn value_after(chars: &Vec<char>, from: usize, to: usize, prefix: &str) -> (value: Option<String>)
    requires
        from <= to <= chars.len(),
    ensures
        match value {
            Some(v) => starts_with(chars@.subrange(from as int, to as int), prefix@) && v@
                == chars@.subrange(from as int, to as int).skip(prefix@.len() as int),
            None => !starts_with(chars@.subrange(from as int, to as int), prefix@),
        },
{
    let w = chars_of(prefix);
    let ghost t = chars@.subrange(from as int, to as int);
    if w.len() > to - from {
        return None;
    }
    let mut j: usize = 0;
    while j < w.len()
        invariant
            j <= w.len(),
            from + w.len() <= to <= chars.len(),
            w@ == prefix@,
            t == chars@.subrange(from as int, to as int),
            t.subrange(0, j as int) == w@.take(j as int),
        decreases w.len() - j,
    {
        if chars[from + j] != w[j] {
            assert(t.subrange(0, w.len() as int)[j as int] != w@[j as int]);
            return None;
        }
        assert(t.subrange(0, j + 1) == t.subrange(0, j as int).push(chars@[from + j]));
        assert(w@.take(j + 1) == w@.take(j as int).push(w@[j as int]));
        j += 1;
    }
    assert(w@.take(w.len() as int) == w@);
    assert(t.skip(w.len() as int) == chars@.subrange(from + w.len(), to as int));
    Some(string_of_range(chars, from + w.len(), to))
}

/// Reads what the service manager prints of one service.
pub fn get_service_detail(answer: &str) -> (detail: Option<ServiceDetail>)
    ensures
        match detail {
            Some(d) => service_detail(answer@) == Some(d@),
            None => service_detail(answer@) is None,
        },
{
    let chars = chars_of(answer);
    assert(chars@.subrange(0, chars.len() as int) == chars@);
    let (a, b) = trim_bounds(&chars, 0, chars.len());
    if a == b {
        return None;
    }
    let bounds = line_bounds(&chars, a, b);
    let ghost rows = lines(trimmed(answer@));
    let mut detail = ServiceDetail {
        path: None,
        kind: None,
        bundle_id: None,
        state: None,
        environment: Vec::new(),
        last_exit_reason: None,
    };
    assert(detail@.environment =~= Seq::empty());
    assert(rows.take(0) == Seq::<Seq<char>>::empty());
    let mut k: usize = 0;
    while k < bounds.len()
        invariant
            k <= bounds.len(),
            bounds@.len() == rows.len(),
            forall|i: int|
                0 <= i < bounds@.len() ==> {
                    &&& (#[trigger] bounds@[i]).0 <= bounds@[i].1 <= chars.len()
                    &&& chars@.subrange(bounds@[i].0 as int, bounds@[i].1 as int) == rows[i]
                },
            detail@ == detail_of(rows.take(k as int)),
            detail@.environment == Seq::<(Seq<char>, Seq<char>)>::empty(),
        decreases bounds.len() - k,
    {
        proof {
            let next = rows.take(k + 1);
            assert(next.drop_last() == rows.take(k as int));
            assert(next.last() == rows[k as int]);
        }
        let (t0, t1) = trim_bounds(&chars, bounds[k].0, bounds[k].1);
        if let Some(v) = value_after(&chars, t0, t1, "path = ") {
            detail.path = Some(v);
        } else if let Some(v) = value_after(&chars, t0, t1, "type = ") {
            detail.kind = Some(v);
        } else if let Some(v) = value_after(&chars, t0, t1, "bundle id = ") {
            detail.bundle_id = Some(v);
        } else if let Some(v) = value_after(&chars, t0, t1, "state = ") {
            detail.state = Some(v);
        } else if let Some(v) = value_after(&chars, t0, t1, "last exit reason = ") {
            detail.last_exit_reason = Some(v);
        }
        k += 1;
    }
    assert(rows.take(bounds.len() as int) == rows);
    Some(detail)
}


/// One service, as the list shows it.
#[derive(Debug, PartialEq, Eq)]
pub struct ServiceInfo {
    pub label: String,
    pub pid: Option<i32>,
    pub last_exit_status: Option<i32>,
    /// `running`, `stopped` or `error`.
    pub status: String,
    pub category: String,
    pub plist_path: Option<String>,
    pub program: Option<String>,
    pub program_arguments: Option<Vec<String>>,
    pub run_at_load: Option<bool>,
    pub enabled: bool,
}

/// What a `ServiceInfo` holds, as mathematical values.
pub struct ServiceInfoView {
    pub label: Seq<char>,
    pub pid: Option<i32>,
    pub last_exit_status: Option<i32>,
    pub status: Seq<char>,
    pub category: Seq<char>,
    pub plist_path: Option<Seq<char>>,
    pub program: Option<Seq<char>>,
    pub program_arguments: Option<Seq<Seq<char>>>,
    pub run_at_load: Option<bool>,
    pub enabled: bool,
}

/// The characters of an optional list of strings.
pub open spec fn texts_of(list: Option<Vec<String>>) -> Option<Seq<Seq<char>>> {
    match list {
        Some(v) => Some(texts(v@)),
        None => None,
    }
}

impl View for ServiceInfo {
    type V = ServiceInfoView;

    open spec fn view(&self) -> ServiceInfoView {
        ServiceInfoView {
            label: self.label@,
            pid: self.pid,
            last_exit_status: self.last_exit_status,
            status: self.status@,
            category: self.category@,
            plist_path: text_of(self.plist_path),
            program: text_of(self.program),
            program_arguments: texts_of(self.program_arguments),
            run_at_load: self.run_at_load,
            enabled: self.enabled,
        }
    }
}

/// A property list found on disk, and what was read from it.
#[derive(Debug, PartialEq, Eq)]
pub struct PlistFile {
    /// The label that its file name gives.
    pub label: String,
    pub path: String,
    /// The category of the directory in which it was found.
    pub category: String,
    /// Its `Program`, where it holds a string.
    pub program: Option<String>,
    /// The strings of its `ProgramArguments`, where it holds an array.
    pub program_arguments: Option<Vec<String>>,
    /// Its `RunAtLoad`, where it holds a truth value.
    pub run_at_load: Option<bool>,
}

/// What a `PlistFile` holds, as mathematical values.
pub struct PlistFileView {
    pub label: Seq<char>,
    pub path: Seq<char>,
    pub category: Seq<char>,
    pub program: Option<Seq<char>>,
    pub program_arguments: Option<Seq<Seq<char>>>,
    pub run_at_load: Option<bool>,
}

impl View for PlistFile {
    type V = PlistFileView;

    open spec fn view(&self) -> PlistFileView {
        PlistFileView {
            label: self.label@,
            path: self.path@,
            category: self.category@,
            program: text_of(self.program),
            program_arguments: texts_of(self.program_arguments),
            run_at_load: self.run_at_load,
        }
    }
}

/// The views of a list of property lists.
pub open spec fn plist_views(plists: Seq<PlistFile>) -> Seq<PlistFileView> {
    plists.map_values(|p: PlistFile| p@)
}

/// The views of a list of services.
pub open spec fn service_views(services: Seq<ServiceInfo>) -> Seq<ServiceInfoView> {
    services.map_values(|s: ServiceInfo| s@)
}

/// The program that a property list runs: its `Program`, else the first of
/// its `ProgramArguments`.
pub open spec fn program_of(plist: PlistFileView) -> Option<Seq<char>> {
    match plist.program {
        Some(p) => Some(p),
        None => match plist.program_arguments {
            Some(args) => if args.len() > 0 {
                Some(args[0])
            } else {
                None
            },
            None => None,
        },
    }
}

/// The service that a property list declares, with what the service manager
/// says of its label. It is enabled where it is loaded and its file is not
/// disabled.
pub open spec fn plist_service(table: LoadedTable, plist: PlistFileView) -> ServiceInfoView {
    let loaded = lookup(table, plist.label);
    ServiceInfoView {
        label: plist.label,
        pid: match loaded {
            Some(l) => l.pid,
            None => None,
        },
        last_exit_status: match loaded {
            Some(l) => l.exit_status,
            None => None,
        },
        status: status_of(loaded),
        category: plist.category,
        plist_path: Some(plist.path),
        program: program_of(plist),
        program_arguments: plist.program_arguments,
        run_at_load: plist.run_at_load,
        enabled: !is_disabled(plist.path) && loaded is Some,
    }
}

/// The service that is loaded under `label` and has no property list.
pub open spec fn loaded_service(label: Seq<char>, info: LoadedService) -> ServiceInfoView {
    ServiceInfoView {
        label,
        pid: info.pid,
        last_exit_status: info.exit_status,
        status: status_of(Some(info)),
        category: if starts_with(label, "com.apple."@) {
            "system-agents"@
        } else {
            "user-agents"@
        },
        plist_path: None,
        program: None,
        program_arguments: None,
        run_at_load: None,
        enabled: true,
    }
}

/// Whether one of `plists` has the label `label`.
pub open spec fn has_plist(plists: Seq<PlistFileView>, label: Seq<char>) -> bool {
    exists|i: int| 0 <= i < plists.len() && (#[trigger] plists[i]).label == label
}

/// The services of the property lists, in their order.
pub open spec fn plist_services(table: LoadedTable, plists: Seq<PlistFileView>) -> Seq<
    ServiceInfoView,
> {
    plists.map_values(|p: PlistFileView| plist_service(table, p))
}

/// The services of the rows of `table` whose label no property list has, in
/// their order.
pub open spec fn loaded_only_services(table: LoadedTable, plists: Seq<PlistFileView>) -> Seq<
    ServiceInfoView,
>
    decreases table.len(),
{
    if table.len() == 0 {
        Seq::empty()
    } else {
        let before = loaded_only_services(table.drop_last(), plists);
        if has_plist(plists, table.last().0) {
            before
        } else {
            before.push(loaded_service(table.last().0, table.last().1))
        }
    }
}

/// Where a service with the label `label` goes in `services`: before the
/// first whose label comes after its own, or at the end.
pub open spec fn insertion_point(services: Seq<ServiceInfoView>, label: Seq<char>) -> int
    decreases services.len(),
{
    if services.len() == 0 || lex_less(label, services[0].label) {
        0
    } else {
        1 + insertion_point(services.skip(1), label)
    }
}

/// `services` with `service` put in at its insertion point.
pub open spec fn ordered_insert(services: Seq<ServiceInfoView>, service: ServiceInfoView) -> Seq<
    ServiceInfoView,
> {
    let p = insertion_point(services, service.label);
    if 0 <= p <= services.len() {
        services.insert(p, service)
    } else {
        services
    }
}

/// `services` in the order of their labels: each is put in, one after
/// another, before the first whose label comes after its own.
pub open spec fn sorted_by_label(services: Seq<ServiceInfoView>) -> Seq<ServiceInfoView>
    decreases services.len(),
{
    if services.len() == 0 {
        Seq::empty()
    } else {
        ordered_insert(sorted_by_label(services.drop_last()), services.last())
    }
}

/// The list of services: those of the property lists, then those that are
/// loaded without one, all in the order of their labels.
pub open spec fn service_list(table: LoadedTable, plists: Seq<PlistFileView>) -> Seq<
    ServiceInfoView,
> {
    sorted_by_label(plist_services(table, plists) + loaded_only_services(table, plists))
}

/// Whether the labels of `services` never go down.
pub open spec fn ordered_by_label(services: Seq<ServiceInfoView>) -> bool {
    forall|i: int, j: int|
        0 <= i < j < services.len() ==> !lex_less(
            (#[trigger] services[j]).label,
            (#[trigger] services[i]).label,
        )
}

/// An index with no label before it that comes after `label`, that is the
/// end or holds a label that does, is the insertion point.
pub proof fn lemma_insertion_point(services: Seq<ServiceInfoView>, label: Seq<char>, k: int)
    requires
        0 <= k <= services.len(),
        forall|i: int| 0 <= i < k ==> !lex_less(label, (#[trigger] services[i]).label),
        k == services.len() || lex_less(label, services[k].label),
    ensures
        insertion_point(services, label) == k,
    decreases k,
{
    if k > 0 {
        assert(!lex_less(label, services[0].label));
        lemma_insertion_point(services.skip(1), label, k - 1);
    }
}

/// The insertion point lies within the list, no label before it comes after
/// the new one, and the label at it does.
pub proof fn lemma_insertion_point_bounds(services: Seq<ServiceInfoView>, label: Seq<char>)
    ensures
        0 <= insertion_point(services, label) <= services.len(),
        forall|i: int|
            0 <= i < insertion_point(services, label) ==> !lex_less(
                label,
                (#[trigger] services[i]).label,
            ),
        insertion_point(services, label) < services.len() ==> lex_less(
            label,
            services[insertion_point(services, label)].label,
        ),
    decreases services.len(),
{
    if services.len() == 0 || lex_less(label, services[0].label) {
    } else {
        let rest = services.skip(1);
        lemma_insertion_point_bounds(rest, label);
        assert forall|i: int| 0 <= i < insertion_point(services, label) implies !lex_less(
            label,
            (#[trigger] services[i]).label,
        ) by {
            if i > 0 {
                assert(services[i] == rest[i - 1]);
            }
        }
    }
}

/// Putting a service in at its insertion point keeps the labels in order.
pub proof fn lemma_insert_keeps_order(services: Seq<ServiceInfoView>, service: ServiceInfoView)
    requires
        ordered_by_label(services),
    ensures
        ordered_by_label(ordered_insert(services, service)),
        ordered_insert(services, service).to_multiset() == services.to_multiset().insert(service),
{
    lemma_insertion_point_bounds(services, service.label);
    let p = insertion_point(services, service.label);
    let out = services.insert(p, service);
    assert forall|i: int, j: int| 0 <= i < j < out.len() implies !lex_less(
        (#[trigger] out[j]).label,
        (#[trigger] out[i]).label,
    ) by {
        if j == p {
            assert(out[i] == services[i]);
        } else if i == p {
            assert(out[j] == services[j - 1]);
            if lex_less(out[j].label, service.label) {
                lemma_lex_transitive(out[j].label, service.label, services[p].label);
                lemma_lex_irreflexive(services[p].label);
                if j - 1 > p {
                    assert(!lex_less(services[j - 1].label, services[p].label));
                }
            }
        } else {
            let a = if i < p {
                i
            } else {
                i - 1
            };
            let b = if j < p {
                j
            } else {
                j - 1
            };
            assert(out[i] == services[a]);
            assert(out[j] == services[b]);
        }
    }
    broadcast use vstd::seq_lib::to_multiset_insert;
}

/// The sorted list holds the same services, each as often, with labels that
/// never go down.
pub proof fn lemma_sorted_by_label(services: Seq<ServiceInfoView>)
    ensures
        ordered_by_label(sorted_by_label(services)),
        sorted_by_label(services).to_multiset() == services.to_multiset(),
        sorted_by_label(services).len() == services.len(),
    decreases services.len(),
{
    broadcast use vstd::seq_lib::to_multiset_build, vstd::seq_lib::to_multiset_len;
    if services.len() == 0 {
        assert(services =~= Seq::empty());
    } else {
        let before = services.drop_last();
        lemma_sorted_by_label(before);
        lemma_insert_keeps_order(sorted_by_label(before), services.last());
        assert(before.push(services.last()) == services);
        lemma_insertion_point_bounds(sorted_by_label(before), services.last().label);
    }
}


/// A copy of a list of strings.
fn clone_strings(list: &Vec<String>) -> (copy: Vec<String>)
    ensures
        texts(copy@) == texts(list@),
{
    let mut copy: Vec<String> = Vec::new();
    let mut i: usize = 0;
    while i < list.len()
        invariant
            i <= list.len(),
            copy@ == list@.take(i as int),
        decreases list.len() - i,
    {
        copy.push(list[i].clone());
        i += 1;
    }
    assert(list@.take(list.len() as int) == list@);
    copy
}

/// Whether one of `plists` has the label `label`.
fn has_label(plists: &Vec<PlistFile>, label: &str) -> (r: bool)
    ensures
        r == has_plist(plist_views(plists@), label@),
{
    let mut i: usize = 0;
    while i < plists.len()
        invariant
            i <= plists.len(),
            forall|k: int| 0 <= k < i ==> (#[trigger] plist_views(plists@)[k]).label != label@,
        decreases plists.len() - i,
    {
        if same_text(plists[i].label.as_str(), label) {
            assert(plist_views(plists@)[i as int].label == label@);
            return true;
        }
        i += 1;
    }
    false
}

/// Makes the service that a property list declares.
fn service_of_plist(table: &Vec<(String, LoadedService)>, plist: &PlistFile) -> (service:
    ServiceInfo)
    ensures
        service@ == plist_service(table_view(table@), plist@),
{
    let loaded = lookup_loaded(table, plist.label.as_str());
    let disabled = path_is_disabled(plist.path.as_str());
    let program = match &plist.program {
        Some(p) => Some(p.clone()),
        None => match &plist.program_arguments {
            Some(args) => if args.len() > 0 {
                Some(args[0].clone())
            } else {
                None
            },
            None => None,
        },
    };
    let program_arguments = match &plist.program_arguments {
        Some(args) => Some(clone_strings(args)),
        None => None,
    };
    ServiceInfo {
        label: plist.label.clone(),
        pid: match loaded {
            Some(l) => l.pid,
            None => None,
        },
        last_exit_status: match loaded {
            Some(l) => l.exit_status,
            None => None,
        },
        status: service_status(loaded).to_owned(),
        category: plist.category.clone(),
        plist_path: Some(plist.path.clone()),
        program,
        program_arguments,
        run_at_load: plist.run_at_load,
        enabled: !disabled && loaded.is_some(),
    }
}

/// Makes the service that is loaded under `label` without a property list.
fn service_of_loaded(label: &String, info: LoadedService) -> (service: ServiceInfo)
    ensures
        service@ == loaded_service(label@, info),
{
    let chars = chars_of(label.as_str());
    let category = if str_starts_with(&chars, "com.apple.") {
        "system-agents".to_owned()
    } else {
        "user-agents".to_owned()
    };
    ServiceInfo {
        label: label.clone(),
        pid: info.pid,
        last_exit_status: info.exit_status,
        status: service_status(Some(info)).to_owned(),
        category,
        plist_path: None,
        program: None,
        program_arguments: None,
        run_at_load: None,
        enabled: true,
    }
}

/// Puts `service` into `services` at its insertion point.
fn insert_ordered(services: &mut Vec<ServiceInfo>, service: ServiceInfo)
    ensures
        service_views(final(services)@) == ordered_insert(
            service_views(old(services)@),
            service@,
        ),
{
    let ghost given = service_views(services@);
    let mut p: usize = 0;
    while p < services.len() && !string_less(service.label.as_str(), services[p].label.as_str())
        invariant
            p <= services.len(),
            given == service_views(services@),
            forall|i: int| 0 <= i < p ==> !lex_less(service.label@, (#[trigger] given[i]).label),
        decreases services.len() - p,
    {
        p += 1;
    }
    proof {
        lemma_insertion_point(given, service.label@, p as int);
    }
    services.insert(p, service);
    assert(service_views(services@) =~= given.insert(p as int, service@));
}

/// Puts the list of services together from the services that are loaded
/// and the property lists that were found.
pub fn list_services(loaded: &Vec<(String, LoadedService)>, plists: &Vec<PlistFile>) -> (services:
    Vec<ServiceInfo>)
    ensures
        service_views(services@) == service_list(table_view(loaded@), plist_views(plists@)),
{
    let ghost table = table_view(loaded@);
    let ghost files = plist_views(plists@);
    let ghost declared = plist_services(table, files);
    let mut services: Vec<ServiceInfo> = Vec::new();
    let mut i: usize = 0;
    assert(declared.take(0) == Seq::<ServiceInfoView>::empty());
    assert(service_views(services@) == Seq::<ServiceInfoView>::empty());
    while i < plists.len()
        invariant
            i <= plists.len(),
            table == table_view(loaded@),
            files == plist_views(plists@),
            declared == plist_services(table, files),
            service_views(services@) == sorted_by_label(declared.take(i as int)),
        decreases plists.len() - i,
    {
        let service = service_of_plist(loaded, &plists[i]);
        proof {
            let next = declared.take(i + 1);
            assert(next.drop_last() == declared.take(i as int));
            assert(next.last() == service@);
        }
        insert_ordered(&mut services, service);
        i += 1;
    }
    assert(declared.take(plists.len() as int) == declared);
    let mut j: usize = 0;
    assert(table.take(0) == Seq::<(Seq<char>, LoadedService)>::empty());
    assert(declared + Seq::<ServiceInfoView>::empty() == declared);
    while j < loaded.len()
        invariant
            j <= loaded.len(),
            table == table_view(loaded@),
            files == plist_views(plists@),
            declared == plist_services(table, files),
            service_views(services@) == sorted_by_label(
                declared + loaded_only_services(table.take(j as int), files),
            ),
        decreases loaded.len() - j,
    {
        let ghost before = loaded_only_services(table.take(j as int), files);
        proof {
            let next = table.take(j + 1);
            assert(next.drop_last() == table.take(j as int));
            assert(next.last() == table[j as int]);
        }
        if !has_label(plists, loaded[j].0.as_str()) {
            let service = service_of_loaded(&loaded[j].0, loaded[j].1);
            proof {
                let all = declared + before.push(service@);
                assert(all.drop_last() == declared + before);
                assert(all.last() == service@);
            }
            insert_ordered(&mut services, service);
        }
        j += 1;
    }
    assert(table.take(loaded.len() as int) == table);
    services
}

/// The command that asks the service manager for its list of loaded
/// services.
pub fn list_command() -> (args: Vec<String>)
    ensures
        texts(args@) == seq!["launchctl"@, "list"@],
{
    let mut args: Vec<String> = Vec::new();
    args.push("launchctl".to_owned());
    args.push("list".to_owned());
    assert(texts(args@) == seq!["launchctl"@, "list"@]);
    args
}

fn launchctl(verb: &str, flag: Option<&str>, object: &str) -> (args: Vec<String>)
    ensures
        texts(args@) == match flag {
            Some(f) => seq!["launchctl"@, verb@, f@, object@],
            None => seq!["launchctl"@, verb@, object@],
        },
{
    let mut args: Vec<String> = Vec::new();
    args.push("launchctl".to_owned());
    args.push(verb.to_owned());
    match flag {
        Some(f) => {
            args.push(f.to_owned());
            args.push(object.to_owned());
            assert(texts(args@) == seq!["launchctl"@, verb@, f@, object@]);
        },
        None => {
            args.push(object.to_owned());
            assert(texts(args@) == seq!["launchctl"@, verb@, object@]);
        },
    }
    args
}

/// The command that prints the service at `target`.
pub fn print_command(target: &str) -> (args: Vec<String>)
    ensures
        texts(args@) == seq!["launchctl"@, "print"@, target@],
{
    launchctl("print", None, target)
}

/// The command that starts the service at `target`.
pub fn start_service(target: &str) -> (args: Vec<String>)
    ensures
        texts(args@) == seq!["launchctl"@, "kickstart"@, target@],
{
    launchctl("kickstart", None, target)
}

/// What a second try to start a service, as a service of the system, has
/// achieved: it fails where the service manager knows no such service
/// either.
pub fn start_service_result(answer: &str) -> (r: Result<(), String>)
    ensures
        r is Err <==> holds(answer@, "Could not find service"@),
        r is Err ==> r->Err_0@ == "Service not found"@,
{
    if service_not_found(answer) {
        Err("Service not found".to_owned())
    } else {
        Ok(())
    }
}

/// The command that stops the service `label` of the user `uid`.
pub fn stop_service(uid: u32, label: &str) -> (args: Vec<String>)
    ensures
        texts(args@) == seq!["launchctl"@, "kill"@, "SIGTERM"@, gui_target_of(uid, label@)],
{
    let target = gui_target(uid, label);
    launchctl("kill", Some("SIGTERM"), target.as_str())
}

/// The command that loads the property list at `plist_path` for good, and
/// whether the file has to be renamed to the path in the command first: it
/// has where it is disabled.
pub fn enable_service(plist_path: &str) -> (r: (Vec<String>, bool))
    ensures
        texts(r.0@) == seq!["launchctl"@, "load"@, "-w"@, enabled_path_of(plist_path@)],
        r.1 == is_disabled(plist_path@),
{
    let (actual, rename) = enabled_path(plist_path);
    (launchctl("load", Some("-w"), actual.as_str()), rename)
}

/// The command that takes the service `label` out of service: its property
/// list is unloaded for good where its path is known, else the service is
/// removed.
pub fn disable_service(label: &str, plist_path: Option<&str>) -> (args: Vec<String>)
    ensures
        texts(args@) == match plist_path {
            Some(path) => seq!["launchctl"@, "unload"@, "-w"@, path@],
            None => seq!["launchctl"@, "remove"@, label@],
        },
{
    match plist_path {
        Some(path) => launchctl("unload", Some("-w"), path),
        None => launchctl("remove", None, label),
    }
}


/// What can be asked of a service.
#[derive(Debug, PartialEq, Eq)]
pub enum ServiceAction {
    Start,
    Stop,
    /// Enable the property list at this path.
    Enable(String),
    Disable,
}

/// What a `ServiceAction` holds, as mathematical values.
pub enum ServiceActionView {
    Start,
    Stop,
    Enable(Seq<char>),
    Disable,
}

impl View for ServiceAction {
    type V = ServiceActionView;

    open spec fn view(&self) -> ServiceActionView {
        match self {
            ServiceAction::Start => ServiceActionView::Start,
            ServiceAction::Stop => ServiceActionView::Stop,
            ServiceAction::Enable(path) => ServiceActionView::Enable(path@),
            ServiceAction::Disable => ServiceActionView::Disable,
        }
    }
}

/// The request that a name stands for: `start`, `stop`, `enable`, which
/// needs the path of a property list, or `disable`. Any other name is
/// refused.
pub open spec fn request_of(action: Seq<char>, plist_path: Option<Seq<char>>) -> Result<
    ServiceActionView,
    Seq<char>,
> {
    if action == "start"@ {
        Ok(ServiceActionView::Start)
    } else if action == "stop"@ {
        Ok(ServiceActionView::Stop)
    } else if action == "enable"@ {
        match plist_path {
            Some(path) => Ok(ServiceActionView::Enable(path)),
            None => Err("plistPath required for enable"@),
        }
    } else if action == "disable"@ {
        Ok(ServiceActionView::Disable)
    } else {
        Err("Unknown action: "@ + action)
    }
}

/// Reads a request by its name.
pub fn manage_service(action: &str, plist_path: Option<&str>) -> (r: Result<ServiceAction, String>)
    ensures
        match r {
            Ok(a) => request_of(action@, slice_text(plist_path)) == Ok::<
                ServiceActionView,
                Seq<char>,
            >(a@),
            Err(e) => request_of(action@, slice_text(plist_path)) == Err::<
                ServiceActionView,
                Seq<char>,
            >(e@),
        },
{
    if same_text(action, "start") {
        Ok(ServiceAction::Start)
    } else if same_text(action, "stop") {
        Ok(ServiceAction::Stop)
    } else if same_text(action, "enable") {
        match plist_path {
            Some(path) => Ok(ServiceAction::Enable(path.to_owned())),
            None => Err("plistPath required for enable".to_owned()),
        }
    } else if same_text(action, "disable") {
        Ok(ServiceAction::Disable)
    } else {
        let mut e = "Unknown action: ".to_owned();
        e.append(action);
        Err(e)
    }
}

} // verus!
