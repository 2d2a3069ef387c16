//! The application's settings: what the config file says and how it is
//! written back.
use vstd::prelude::*;

use crate::dates::{decimal, decimal_chars};
use crate::numbers::{chars_parse_nat_capped, parse_nat};
use crate::paths::{join, join_path};
use crate::text::{
    join_seq,
    chars_eq_lit, chars_of, find_char, index_of, lines_of, opt_view, owned, push_str, slice_of,
    split_lines, starts_with, string_of, trim, trim_chars, vecs_view,
};

verus! {

/// The settings of the application.
#[derive(Debug, Clone, PartialEq, Eq)]
pub struct AppConfig {
    pub task_dir: String,
    pub editor: Option<String>,
    pub sidebar_width: u8,
    pub sidebar_min_width: u8,
    pub sidebar_max_width: u8,
    pub show_help_bar: bool,
    pub auto_update_on_edit: bool,
    pub editor_highlighting: bool,
}

pub ghost struct ConfigModel {
    pub task_dir: Seq<char>,
    pub editor: Option<Seq<char>>,
    pub sidebar_width: u8,
    pub sidebar_min_width: u8,
    pub sidebar_max_width: u8,
    pub show_help_bar: bool,
    pub auto_update_on_edit: bool,
    pub editor_highlighting: bool,
}

impl View for AppConfig {
    type V = ConfigModel;

    open spec fn view(&self) -> ConfigModel {
        ConfigModel {
            task_dir: self.task_dir@,
            editor: opt_view(self.editor),
            sidebar_width: self.sidebar_width,
            sidebar_min_width: self.sidebar_min_width,
            sidebar_max_width: self.sidebar_max_width,
            show_help_bar: self.show_help_bar,
            auto_update_on_edit: self.auto_update_on_edit,
            editor_highlighting: self.editor_highlighting,
        }
    }
}

/// The default settings for a task directory.
pub open spec fn default_config(task_dir: Seq<char>) -> ConfigModel {
    ConfigModel {
        task_dir,
        editor: None,
        sidebar_width: 20,
        sidebar_min_width: 0,
        sidebar_max_width: 50,
        show_help_bar: true,
        auto_update_on_edit: false,
        editor_highlighting: true,
    }
}

/// Where the configuration lives.
#[derive(Debug, Clone)]
pub struct ConfigPaths {
    pub root: String,
    pub config_file: String,
}

impl ConfigPaths {
    /// The paths for a configuration directory: `config.conf` inside it.
    pub fn from_root(root: &str) -> (r: ConfigPaths)
        ensures
            r.root@ == root@,
            r.config_file@ == join_path(root@, "config.conf"@),
    {
        ConfigPaths { root: owned(root), config_file: join(root, "config.conf") }
    }

    /// The configuration file.
    pub fn config_file(&self) -> (r: &str)
        ensures
            r@ == self.config_file@,
    {
        self.config_file.as_str()
    }
}

/// The state of reading a config file, line by line.
pub ghost struct ReadState {
    pub task_dir: Option<Seq<char>>,
    pub cfg: ConfigModel,
}

/// A setting's width: a number up to 255, capped at 100.
pub open spec fn width_value(v: Seq<char>) -> Option<u8> {
    match parse_nat(trim(v)) {
        Some(n) => if n <= 255 {
            Some((if n < 100 {
                n
            } else {
                100
            }) as u8)
        } else {
            None
        },
        None => None,
    }
}

/// One `key=value` line.
pub open spec fn apply_setting(st: ReadState, key: Seq<char>, value: Seq<char>) -> ReadState {
    let v = trim(value);
    let c = st.cfg;
    if key == "task_dir"@ {
        if v.len() > 0 {
            ReadState { task_dir: Some(v), ..st }
        } else {
            st
        }
    } else if key == "editor"@ {
        if v.len() > 0 {
            ReadState { cfg: ConfigModel { editor: Some(v), ..c }, ..st }
        } else {
            st
        }
    } else if key == "sidebar_width"@ {
        match width_value(value) {
            Some(w) => ReadState { cfg: ConfigModel { sidebar_width: w, ..c }, ..st },
            None => st,
        }
    } else if key == "sidebar_min_width"@ {
        match width_value(value) {
            Some(w) => ReadState { cfg: ConfigModel { sidebar_min_width: w, ..c }, ..st },
            None => st,
        }
    } else if key == "sidebar_max_width"@ {
        match width_value(value) {
            Some(w) => ReadState { cfg: ConfigModel { sidebar_max_width: w, ..c }, ..st },
            None => st,
        }
    } else if key == "show_help_bar"@ {
        ReadState { cfg: ConfigModel { show_help_bar: v == "true"@, ..c }, ..st }
    } else if key == "auto_update_on_edit"@ {
        ReadState { cfg: ConfigModel { auto_update_on_edit: v == "true"@, ..c }, ..st }
    } else if key == "editor_highlighting"@ {
        ReadState { cfg: ConfigModel { editor_highlighting: v == "true"@, ..c }, ..st }
    } else {
        st
    }
}

/// One line of a config file: blank lines and `#` comments are skipped,
/// `key=value` lines set a setting, and a bare line names the task
/// directory, but only once (`None`: a second bare line, which is refused).
pub open spec fn read_line(st: ReadState, line: Seq<char>) -> Option<ReadState> {
    let t = trim(line);
    if t.len() == 0 || t[0] == '#' {
        Some(st)
    } else {
        let eq = index_of(t, '=');
        if eq < t.len() {
            Some(apply_setting(st, trim(t.subrange(0, eq)), t.subrange(eq + 1, t.len() as int)))
        } else if st.task_dir is Some {
            None
        } else {
            Some(ReadState { task_dir: Some(t), ..st })
        }
    }
}

pub open spec fn initial_read() -> ReadState {
    ReadState { task_dir: None, cfg: default_config(seq![]) }
}

/// The state after reading `lines`, or `None` once a line is refused.
pub open spec fn read_lines(lines: Seq<Seq<char>>) -> Option<ReadState>
    decreases lines.len(),
{
    if lines.len() == 0 {
        Some(initial_read())
    } else {
        match read_lines(lines.drop_last()) {
            Some(st) => read_line(st, lines.last()),
            None => None,
        }
    }
}

/// Why a config file was refused.
#[derive(Debug, Clone, Copy, PartialEq, Eq, Structural)]
pub enum ConfigError {
    UnrecognizedLine,
    NoTaskDir,
}

impl ConfigError {
    /// The message of the error.
    pub fn message(&self) -> (r: &'static str)
        ensures
            *self == ConfigError::UnrecognizedLine ==> r@ == "config file contains an unrecognized non-key line"@,
            *self == ConfigError::NoTaskDir ==> r@ == "config file is empty or contains no task directory"@,
    {
        match self {
            ConfigError::UnrecognizedLine => "config file contains an unrecognized non-key line",
            ConfigError::NoTaskDir => "config file is empty or contains no task directory",
        }
    }
}

/// What a config file's text gives.
pub open spec fn parsed_config(raw: Seq<char>) -> Result<ConfigModel, ConfigError> {
    match read_lines(lines_of(raw)) {
        None => Err(ConfigError::UnrecognizedLine),
        Some(st) => match st.task_dir {
            None => Err(ConfigError::NoTaskDir),
            Some(d) => Ok(ConfigModel { task_dir: d, ..st.cfg }),
        },
    }
}

/// The exec state of reading.
struct Reading {
    task_dir: Option<Vec<char>>,
    editor: Option<Vec<char>>,
    sidebar_width: u8,
    sidebar_min_width: u8,
    sidebar_max_width: u8,
    show_help_bar: bool,
    auto_update_on_edit: bool,
    editor_highlighting: bool,
}

impl View for Reading {
    type V = ReadState;

    closed spec fn view(&self) -> ReadState {
        ReadState {
            task_dir: match self.task_dir {
                Some(v) => Some(v@),
                None => None,
            },
            cfg: ConfigModel {
                task_dir: seq![],
                editor: match self.editor {
                    Some(v) => Some(v@),
                    None => None,
                },
                sidebar_width: self.sidebar_width,
                sidebar_min_width: self.sidebar_min_width,
                sidebar_max_width: self.sidebar_max_width,
                show_help_bar: self.show_help_bar,
                auto_update_on_edit: self.auto_update_on_edit,
                editor_highlighting: self.editor_highlighting,
            },
        }
    }
}

fn width_of(value: &Vec<char>) -> (r: Option<u8>)
    ensures
        r == width_value(value@),
{
    match chars_parse_nat_capped(&trim_chars(value), 256) {
        Some(n) => if n < 256 {
            Some(if n < 100 { n as u8 } else { 100u8 })
        } else {
            None
        },
        None => None,
    }
}

impl Reading {
    fn setting(&mut self, key: &Vec<char>, value: &Vec<char>)
        ensures
            final(self)@.task_dir == apply_setting(old(self)@, key@, value@).task_dir,
            final(self)@.cfg == apply_setting(old(self)@, key@, value@).cfg,
    {
        let v = trim_chars(value);
        proof {
            reveal_strlit("task_dir");
            reveal_strlit("editor");
            reveal_strlit("sidebar_width");
            reveal_strlit("sidebar_min_width");
            reveal_strlit("sidebar_max_width");
            reveal_strlit("show_help_bar");
            reveal_strlit("auto_update_on_edit");
            reveal_strlit("editor_highlighting");
            reveal_strlit("true");
        }
        if chars_eq_lit(key, "task_dir") {
            if v.len() > 0 {
                self.task_dir = Some(v);
            }
        } else if chars_eq_lit(key, "editor") {
            if v.len() > 0 {
                self.editor = Some(v);
            }
        } else if chars_eq_lit(key, "sidebar_width") {
            if let Some(w) = width_of(value) {
                self.sidebar_width = w;
            }
        } else if chars_eq_lit(key, "sidebar_min_width") {
            if let Some(w) = width_of(value) {
                self.sidebar_min_width = w;
            }
        } else if chars_eq_lit(key, "sidebar_max_width") {
            if let Some(w) = width_of(value) {
                self.sidebar_max_width = w;
            }
        } else if chars_eq_lit(key, "show_help_bar") {
            self.show_help_bar = chars_eq_lit(&v, "true");
        } else if chars_eq_lit(key, "auto_update_on_edit") {
            self.auto_update_on_edit = chars_eq_lit(&v, "true");
        } else if chars_eq_lit(key, "editor_highlighting") {
            self.editor_highlighting = chars_eq_lit(&v, "true");
        }
    }

    /// Reads one line; `false` when the line is refused.
    fn line(&mut self, line: &Vec<char>) -> (ok: bool)
        ensures
            ok == (read_line(old(self)@, line@) is Some),
            ok ==> final(self)@ == read_line(old(self)@, line@)->0,
    {
        let t = trim_chars(line);
        if t.len() == 0 || t[0] == '#' {
            return true;
        }
        let eq = find_char(&t, 0, '=');
        assert(t@.subrange(0, t.len() as int) =~= t@);
        if eq < t.len() {
            let key = trim_chars(&slice_of(&t, 0, eq));
            let value = slice_of(&t, eq + 1, t.len());
            self.setting(&key, &value);
            true
        } else if self.task_dir.is_some() {
            false
        } else {
            self.task_dir = Some(t);
            true
        }
    }
}

impl AppConfig {
    /// The default settings for a task directory.
    pub fn new(task_dir: &str) -> (r: AppConfig)
        ensures
            r@ == default_config(task_dir@),
    {
        AppConfig {
            task_dir: owned(task_dir),
            editor: None,
            sidebar_width: 20,
            sidebar_min_width: 0,
            sidebar_max_width: 50,
            show_help_bar: true,
            auto_update_on_edit: false,
            editor_highlighting: true,
        }
    }

    /// Reads the text of a config file.
    pub fn parse(raw: &str) -> (r: Result<AppConfig, ConfigError>)
        ensures
            match parsed_config(raw@) {
                Ok(c) => r matches Ok(x) && x@ == c,
                Err(e) => r == Err::<AppConfig, ConfigError>(e),
            },
    {
        let lines = split_lines(&chars_of(raw));
        let ghost all = vecs_view(lines@);
        let mut st = Reading {
            task_dir: None,
            editor: None,
            sidebar_width: 20,
            sidebar_min_width: 0,
            sidebar_max_width: 50,
            show_help_bar: true,
            auto_update_on_edit: false,
            editor_highlighting: true,
        };
        assert(st@ == initial_read());
        let mut i: usize = 0;
        while i < lines.len()
            invariant
                i <= lines.len(),
                all == vecs_view(lines@),
                all == lines_of(raw@),
                read_lines(all.subrange(0, i as int)) == Some(st@),
            decreases lines.len() - i,
        {
            assert(all.subrange(0, i + 1).drop_last() =~= all.subrange(0, i as int));
            assert(all.subrange(0, i + 1).last() == lines@[i as int]@);
            if !st.line(&lines[i]) {
                proof {
                    lemma_read_lines_stuck(all, i as int + 1);
                }
                return Err(ConfigError::UnrecognizedLine);
            }
            i = i + 1;
        }
        assert(all.subrange(0, lines.len() as int) =~= all);
        match st.task_dir {
            None => Err(ConfigError::NoTaskDir),
            Some(d) => Ok(AppConfig {
                task_dir: string_of(&d),
                editor: match st.editor {
                    Some(e) => Some(string_of(&e)),
                    None => None,
                },
                sidebar_width: st.sidebar_width,
                sidebar_min_width: st.sidebar_min_width,
                sidebar_max_width: st.sidebar_max_width,
                show_help_bar: st.show_help_bar,
                auto_update_on_edit: st.auto_update_on_edit,
                editor_highlighting: st.editor_highlighting,
            }),
        }
    }

    /// The text `save` writes: the task directory first, then every setting
    /// as `key=value`, one per line.
    pub fn render(&self) -> (r: String)
        ensures
            r@ == rendered_config(self@),
    {
        let ghost c = self@;
        let mut out = owned("task_dir=");
        push_str(&mut out, self.task_dir.as_str());
        let ghost mut ls: Seq<Seq<char>> = seq![out@];
        assert(join_seq(ls, "\n"@) == out@);
        if let Some(e) = &self.editor {
            push_setting(&mut out, Ghost(ls), "editor=", e.as_str());
            proof {
                ls = ls.push("editor="@ + e@);
            }
        }
        let w = string_of(&decimal_chars(self.sidebar_width as u64));
        push_setting(&mut out, Ghost(ls), "sidebar_width=", w.as_str());
        proof {
            ls = ls.push("sidebar_width="@ + w@);
        }
        let w = string_of(&decimal_chars(self.sidebar_min_width as u64));
        push_setting(&mut out, Ghost(ls), "sidebar_min_width=", w.as_str());
        proof {
            ls = ls.push("sidebar_min_width="@ + w@);
        }
        let w = string_of(&decimal_chars(self.sidebar_max_width as u64));
        push_setting(&mut out, Ghost(ls), "sidebar_max_width=", w.as_str());
        proof {
            ls = ls.push("sidebar_max_width="@ + w@);
        }
        let b = if self.show_help_bar { "true" } else { "false" };
        push_setting(&mut out, Ghost(ls), "show_help_bar=", b);
        proof {
            ls = ls.push("show_help_bar="@ + b@);
        }
        let b = if self.auto_update_on_edit { "true" } else { "false" };
        push_setting(&mut out, Ghost(ls), "auto_update_on_edit=", b);
        proof {
            ls = ls.push("auto_update_on_edit="@ + b@);
        }
        let b = if self.editor_highlighting { "true" } else { "false" };
        push_setting(&mut out, Ghost(ls), "editor_highlighting=", b);
        proof {
            ls = ls.push("editor_highlighting="@ + b@);
            assert(ls =~= rendered_lines(c));
        }
        out
    }
}

/// Appends a newline and the line `key` + `value` to the text of `lines`.
fn push_setting(out: &mut String, Ghost(lines): Ghost<Seq<Seq<char>>>, key: &str, value: &str)
    requires
        lines.len() > 0,
        old(out)@ == join_seq(lines, "\n"@),
    ensures
        final(out)@ == join_seq(lines.push(key@ + value@), "\n"@),
{
    let ghost before = out@;
    push_str(out, "\n");
    push_str(out, key);
    push_str(out, value);
    assert(lines.push(key@ + value@).drop_last() =~= lines);
    assert(out@ =~= before + "\n"@ + (key@ + value@));
}

proof fn lemma_read_lines_stuck(lines: Seq<Seq<char>>, n: int)
    requires
        0 < n <= lines.len(),
        read_lines(lines.subrange(0, n)) is None,
    ensures
        read_lines(lines) is None,
    decreases lines.len() - n,
{
    if n < lines.len() {
        assert(lines.subrange(0, n + 1).drop_last() =~= lines.subrange(0, n));
        lemma_read_lines_stuck(lines, n + 1);
    } else {
        assert(lines.subrange(0, n) =~= lines);
    }
}

pub open spec fn bool_text(b: bool) -> Seq<char> {
    if b {
        "true"@
    } else {
        "false"@
    }
}

/// The text of a saved configuration.
/// The lines that `render` writes: the task directory, the editor when
/// there is one, the sidebar's widths and the three flags, each as
/// `key=value`.
pub open spec fn rendered_lines(c: ConfigModel) -> Seq<Seq<char>> {
    seq!["task_dir="@ + c.task_dir] + match c.editor {
        Some(e) => seq!["editor="@ + e],
        None => seq![],
    } + seq![
        "sidebar_width="@ + decimal(c.sidebar_width as nat),
        "sidebar_min_width="@ + decimal(c.sidebar_min_width as nat),
        "sidebar_max_width="@ + decimal(c.sidebar_max_width as nat),
        "show_help_bar="@ + bool_text(c.show_help_bar),
        "auto_update_on_edit="@ + bool_text(c.auto_update_on_edit),
        "editor_highlighting="@ + bool_text(c.editor_highlighting),
    ]
}

/// The text that `render` writes: its lines, a newline between two.
pub open spec fn rendered_config(c: ConfigModel) -> Seq<char> {
    join_seq(rendered_lines(c), "\n"@)
}

pub open spec fn chosen_editor(
    configured: Option<Seq<char>>,
    visual: Option<Seq<char>>,
    editor: Option<Seq<char>>,
    windows: bool,
) -> Seq<char> {
    if configured is Some && trim(configured->0).len() > 0 {
        trim(configured->0)
    } else if visual is Some && trim(visual->0).len() > 0 {
        trim(visual->0)
    } else if editor is Some && trim(editor->0).len() > 0 {
        trim(editor->0)
    } else if windows {
        "notepad"@
    } else {
        "vi"@
    }
}

/// Chooses the editor command from the configuration and the values of
/// `$VISUAL` and `$EDITOR`.
pub fn resolve_editor(
    config: Option<&AppConfig>,
    visual: Option<&str>,
    editor: Option<&str>,
    windows: bool,
) -> (r: String)
    ensures
        r@ == chosen_editor(
            match config {
                Some(c) => opt_view(c.editor),
                None => None,
            },
            match visual {
                Some(v) => Some(v@),
                None => None,
            },
            match editor {
                Some(v) => Some(v@),
                None => None,
            },
            windows,
        ),
{
    if let Some(c) = config {
        if let Some(e) = &c.editor {
            let t = trim_chars(&chars_of(e.as_str()));
            if t.len() > 0 {
                return string_of(&t);
            }
        }
    }
    if let Some(v) = visual {
        let t = trim_chars(&chars_of(v));
        if t.len() > 0 {
            return string_of(&t);
        }
    }
    if let Some(v) = editor {
        let t = trim_chars(&chars_of(v));
        if t.len() > 0 {
            return string_of(&t);
        }
    }
    if windows {
        owned("notepad")
    } else {
        owned("vi")
    }
}

// -- Reading back what was written ----------------------------------------------------

/// A value that reads back as written: not empty, on one line, without
/// whitespace around it.
pub open spec fn plain_value(v: Seq<char>) -> bool {
    &&& v.len() > 0
    &&& trim(v) == v
    &&& forall|i: int| 0 <= i < v.len() ==> #[trigger] v[i] != '\n'
}

/// Settings that read back as written: a plain task directory and editor,
/// and widths of at most 100.
pub open spec fn writable_config(c: ConfigModel) -> bool {
    &&& plain_value(c.task_dir)
    &&& c.editor matches Some(e) ==> plain_value(e)
    &&& c.sidebar_width <= 100
    &&& c.sidebar_min_width <= 100
    &&& c.sidebar_max_width <= 100
}

proof fn lemma_trim_unchanged(x: Seq<char>)
    requires
        x.len() > 0,
        !crate::text::is_space(x[0]),
        !crate::text::is_space(x.last()),
    ensures
        trim(x) == x,
{
    assert(crate::text::lead_space(x) == 0);
    assert(crate::text::trim_start(x) =~= x);
    assert(crate::text::trail_space(x) == 0);
    assert(crate::text::trim_end(x) =~= x);
}

proof fn lemma_plain_ends(v: Seq<char>)
    requires
        v.len() > 0,
        trim(v) == v,
    ensures
        !crate::text::is_space(v[0]),
        !crate::text::is_space(v.last()),
{
    crate::text::lemma_lead_space_bounds(v);
    let ts = crate::text::trim_start(v);
    crate::text::lemma_trail_space_bounds(ts);
    crate::text::lemma_lead_space_bounds(v.drop_first());
    crate::text::lemma_trail_space_bounds(v.drop_last());
    if crate::text::is_space(v[0]) {
        assert(crate::text::lead_space(v) >= 1);
        assert(trim(v).len() < v.len());
    }
    assert(crate::text::lead_space(v) == 0);
    assert(ts =~= v);
    if crate::text::is_space(v.last()) {
        assert(crate::text::trail_space(v) >= 1);
        assert(trim(v).len() < v.len());
    }
}

proof fn lemma_index_first(s: Seq<char>, c: char, k: int)
    requires
        0 <= k <= s.len(),
        k < s.len() ==> s[k] == c,
        forall|j: int| 0 <= j < k ==> s[j] != c,
    ensures
        index_of(s, c) == k,
    decreases k,
{
    if k > 0 {
        assert forall|j: int| 0 <= j < k - 1 implies s.drop_first()[j] != c by {
            assert(s.drop_first()[j] == s[j + 1]);
        }
        lemma_index_first(s.drop_first(), c, k - 1);
    }
}

proof fn lemma_lines_cons(a: Seq<char>, b: Seq<char>)
    requires
        a.len() > 0,
        a.last() != '\r',
        forall|i: int| 0 <= i < a.len() ==> a[i] != '\n',
    ensures
        lines_of(a + seq!['\n'] + b) == seq![a] + lines_of(b),
{
    let s = a + seq!['\n'] + b;
    lemma_index_first(s, '\n', a.len() as int);
    assert(s.subrange(0, a.len() as int) =~= a);
    assert(s.subrange(a.len() as int + 1, s.len() as int) =~= b);
}

proof fn lemma_lines_single(a: Seq<char>)
    requires
        a.len() > 0,
        a.last() != '\r',
        forall|i: int| 0 <= i < a.len() ==> a[i] != '\n',
    ensures
        lines_of(a) == seq![a],
{
    lemma_index_first(a, '\n', a.len() as int);
    assert(a.subrange(0, a.len() as int) =~= a);
}

proof fn lemma_decimal_value(n: nat)
    ensures
        decimal(n).len() > 0,
        crate::numbers::all_digits(decimal(n)),
        crate::numbers::digits_value(decimal(n)) == n,
    decreases n,
{
    let d = decimal(n);
    if n >= 10 {
        lemma_decimal_value(n / 10);
        let p = decimal(n / 10);
        assert(d.drop_last() =~= p);
        assert(d.last() == crate::dates::digit_char(n as int % 10));
        assert forall|i: int| 0 <= i < d.len() implies crate::text::is_digit(#[trigger] d[i]) by {
            if i < d.len() - 1 {
                assert(d[i] == p[i]);
            }
        }
        assert(crate::numbers::digit_value(d.last()) == n % 10);
        assert(crate::numbers::digits_value(d) == crate::numbers::digits_value(p) * 10 + crate::numbers::digit_value(d.last()));
        assert((n / 10) * 10 + n % 10 == n);
    } else {
        assert(d.drop_last() =~= Seq::<char>::empty());
        assert(crate::numbers::digit_value(d.last()) == n);
        assert(crate::numbers::digits_value(d) == crate::numbers::digits_value(d.drop_last()) * 10 + crate::numbers::digit_value(d.last()));
    }
}

pub open spec fn key_char(c: char) -> bool {
    ('a' <= c && c <= 'z') || c == '_'
}

/// A `key=value` line, for a key of lower-case letters and underscores and
/// a one-line value that does not end in whitespace, is one line that does
/// not end in `\r`.
proof fn lemma_line_shape(key: Seq<char>, value: Seq<char>)
    requires
        key.len() > 0,
        forall|i: int| 0 <= i < key.len() ==> key_char(#[trigger] key[i]),
        value.len() > 0,
        !crate::text::is_space(value.last()),
        forall|i: int| 0 <= i < value.len() ==> #[trigger] value[i] != '\n',
    ensures
        line_of(key, value).len() > 0,
        line_of(key, value).last() != '\r',
        forall|i: int| 0 <= i < line_of(key, value).len() ==> #[trigger] line_of(key, value)[i] != '\n',
{
    let line = line_of(key, value);
    assert(line.last() == value.last());
    assert forall|i: int| 0 <= i < line.len() implies #[trigger] line[i] != '\n' by {
        if i < key.len() {
            assert(key_char(key[i]));
        } else if i > key.len() {
            assert(line[i] == value[i - key.len() - 1]);
        }
    }
}

/// A `key=value` line, for a key of lower-case letters and underscores and
/// a one-line value that does not end in whitespace, reads as that setting
/// and is one line that does not end in `\r`.
proof fn lemma_setting_line(st: ReadState, key: Seq<char>, value: Seq<char>)
    requires
        key.len() > 0,
        forall|i: int| 0 <= i < key.len() ==> key_char(#[trigger] key[i]),
        value.len() > 0,
        !crate::text::is_space(value.last()),
        forall|i: int| 0 <= i < value.len() ==> #[trigger] value[i] != '\n',
    ensures
        read_line(st, key + seq!['='] + value) == Some(apply_setting(st, key, value)),
        (key + seq!['='] + value).len() > 0,
        (key + seq!['='] + value).last() != '\r',
        forall|i: int| 0 <= i < (key + seq!['='] + value).len() ==> #[trigger] (key + seq!['='] + value)[i] != '\n',
{
    let line = key + seq!['='] + value;
    assert(key_char(key[0]));
    assert(key_char(key.last()));
    assert(line[0] == key[0]);
    assert(line.last() == value.last());
    lemma_trim_unchanged(line);
    lemma_trim_unchanged(key);
    assert forall|j: int| 0 <= j < key.len() implies line[j] != '=' by {
        assert(key_char(key[j]));
    }
    lemma_index_first(line, '=', key.len() as int);
    assert(line.subrange(0, key.len() as int) =~= key);
    assert(line.subrange(key.len() as int + 1, line.len() as int) =~= value);
    assert forall|i: int| 0 <= i < line.len() implies #[trigger] line[i] != '\n' by {
        if i < key.len() {
            assert(key_char(key[i]));
        } else if i > key.len() {
            assert(line[i] == value[i - key.len() - 1]);
        }
    }
}

proof fn lemma_read_push(ls: Seq<Seq<char>>, l: Seq<char>)
    ensures
        read_lines(ls.push(l)) == (match read_lines(ls) {
            Some(st) => read_line(st, l),
            None => None,
        }),
{
    assert(ls.push(l).drop_last() =~= ls);
}

/// A decimal number is a setting's value: not empty, on one line, ending
/// in a digit, and its width reading is the number when it is at most 100.
proof fn lemma_width_text(w: u8)
    requires
        w <= 100,
    ensures
        decimal(w as nat).len() > 0,
        !crate::text::is_space(decimal(w as nat).last()),
        forall|i: int| 0 <= i < decimal(w as nat).len() ==> #[trigger] decimal(w as nat)[i] != '\n',
        width_value(decimal(w as nat)) == Some(w),
{
    let d = decimal(w as nat);
    lemma_decimal_value(w as nat);
    assert(crate::text::is_digit(d[0]));
    assert(crate::text::is_digit(d.last()));
    lemma_trim_unchanged(d);
    assert forall|i: int| 0 <= i < d.len() implies #[trigger] d[i] != '\n' by {
        assert(crate::text::is_digit(d[i]));
    }
    assert(crate::numbers::sign_and_digits(d, false) == Some((false, d)));
}

/// `true` or `false` is a setting's value, and reads back as the flag.
proof fn lemma_flag_text(b: bool)
    ensures
        bool_text(b).len() > 0,
        !crate::text::is_space(bool_text(b).last()),
        forall|i: int| 0 <= i < bool_text(b).len() ==> #[trigger] bool_text(b)[i] != '\n',
        (trim(bool_text(b)) == "true"@) == b,
{
    reveal_strlit("true");
    reveal_strlit("false");
    let t = seq!['t', 'r', 'u', 'e'];
    let f = seq!['f', 'a', 'l', 's', 'e'];
    assert(t =~= "true"@);
    assert(f =~= "false"@);
    let v = bool_text(b);
    assert(v == if b { t } else { f });
    assert(!crate::text::is_space(v[0]));
    lemma_trim_unchanged(v);
    assert forall|i: int| 0 <= i < v.len() implies #[trigger] v[i] != '\n' by {
        assert(('a' <= v[i] && v[i] <= 'z'));
    }
}

spec fn k_task_dir() -> Seq<char> {
    seq!['t', 'a', 's', 'k', '_', 'd', 'i', 'r']
}

spec fn k_editor() -> Seq<char> {
    seq!['e', 'd', 'i', 't', 'o', 'r']
}

spec fn k_width() -> Seq<char> {
    seq!['s', 'i', 'd', 'e', 'b', 'a', 'r', '_', 'w', 'i', 'd', 't', 'h']
}

spec fn k_min_width() -> Seq<char> {
    seq!['s', 'i', 'd', 'e', 'b', 'a', 'r', '_', 'm', 'i', 'n', '_', 'w', 'i', 'd', 't', 'h']
}

spec fn k_max_width() -> Seq<char> {
    seq!['s', 'i', 'd', 'e', 'b', 'a', 'r', '_', 'm', 'a', 'x', '_', 'w', 'i', 'd', 't', 'h']
}

spec fn k_help_bar() -> Seq<char> {
    seq!['s', 'h', 'o', 'w', '_', 'h', 'e', 'l', 'p', '_', 'b', 'a', 'r']
}

spec fn k_auto_update() -> Seq<char> {
    seq!['a', 'u', 't', 'o', '_', 'u', 'p', 'd', 'a', 't', 'e', '_', 'o', 'n', '_', 'e', 'd', 'i', 't']
}

spec fn k_highlighting() -> Seq<char> {
    seq!['e', 'd', 'i', 't', 'o', 'r', '_', 'h', 'i', 'g', 'h', 'l', 'i', 'g', 'h', 't', 'i', 'n', 'g']
}

spec fn line_of(key: Seq<char>, value: Seq<char>) -> Seq<char> {
    key + seq!['='] + value
}

proof fn lemma_keys()
    ensures
        k_task_dir() == "task_dir"@,
        k_editor() == "editor"@,
        k_width() == "sidebar_width"@,
        k_min_width() == "sidebar_min_width"@,
        k_max_width() == "sidebar_max_width"@,
        k_help_bar() == "show_help_bar"@,
        k_auto_update() == "auto_update_on_edit"@,
        k_highlighting() == "editor_highlighting"@,
        k_task_dir() + seq!['='] == "task_dir="@,
        k_editor() + seq!['='] == "editor="@,
        k_width() + seq!['='] == "sidebar_width="@,
        k_min_width() + seq!['='] == "sidebar_min_width="@,
        k_max_width() + seq!['='] == "sidebar_max_width="@,
        k_help_bar() + seq!['='] == "show_help_bar="@,
        k_auto_update() + seq!['='] == "auto_update_on_edit="@,
        k_highlighting() + seq!['='] == "editor_highlighting="@,
        "\n"@ == seq!['\n'],
{
    reveal_strlit("\n");
    reveal_strlit("task_dir=");
    reveal_strlit("editor=");
    reveal_strlit("sidebar_width=");
    reveal_strlit("sidebar_min_width=");
    reveal_strlit("sidebar_max_width=");
    reveal_strlit("show_help_bar=");
    reveal_strlit("auto_update_on_edit=");
    reveal_strlit("editor_highlighting=");
    reveal_strlit("task_dir");
    reveal_strlit("editor");
    reveal_strlit("sidebar_width");
    reveal_strlit("sidebar_min_width");
    reveal_strlit("sidebar_max_width");
    reveal_strlit("show_help_bar");
    reveal_strlit("auto_update_on_edit");
    reveal_strlit("editor_highlighting");
    assert("\n"@ =~= seq!['\n']);
    assert(k_task_dir() =~= "task_dir"@);
    assert(k_editor() =~= "editor"@);
    assert(k_width() =~= "sidebar_width"@);
    assert(k_min_width() =~= "sidebar_min_width"@);
    assert(k_max_width() =~= "sidebar_max_width"@);
    assert(k_help_bar() =~= "show_help_bar"@);
    assert(k_auto_update() =~= "auto_update_on_edit"@);
    assert(k_highlighting() =~= "editor_highlighting"@);
    assert(k_task_dir() + seq!['='] =~= "task_dir="@);
    assert(k_editor() + seq!['='] =~= "editor="@);
    assert(k_width() + seq!['='] =~= "sidebar_width="@);
    assert(k_min_width() + seq!['='] =~= "sidebar_min_width="@);
    assert(k_max_width() + seq!['='] =~= "sidebar_max_width="@);
    assert(k_help_bar() + seq!['='] =~= "show_help_bar="@);
    assert(k_auto_update() + seq!['='] =~= "auto_update_on_edit="@);
    assert(k_highlighting() + seq!['='] =~= "editor_highlighting="@);
}

proof fn lemma_join_front(ls: Seq<Seq<char>>, sep: Seq<char>)
    requires
        ls.len() >= 2,
    ensures
        join_seq(ls, sep) == ls[0] + sep + join_seq(ls.drop_first(), sep),
    decreases ls.len(),
{
    if ls.len() > 2 {
        lemma_join_front(ls.drop_last(), sep);
        let j = join_seq(ls.drop_last().drop_first(), sep);
        assert(ls.drop_last().drop_first() =~= ls.drop_first().drop_last());
        assert(ls.drop_first().last() == ls.last());
        assert(join_seq(ls, sep) == join_seq(ls.drop_last(), sep) + sep + ls.last());
        assert(join_seq(ls.drop_first(), sep) == j + sep + ls.last());
        assert(join_seq(ls, sep) =~= ls[0] + sep + (j + sep + ls.last()));
    } else {
        assert(ls.drop_last() =~= seq![ls[0]]);
        assert(ls.drop_first() =~= seq![ls[1]]);
        assert(join_seq(seq![ls[0]], sep) == ls[0]);
        assert(join_seq(seq![ls[1]], sep) == ls[1]);
        assert(join_seq(ls, sep) == join_seq(ls.drop_last(), sep) + sep + ls.last());
    }
}

pub open spec fn one_line(l: Seq<char>) -> bool {
    &&& l.len() > 0
    &&& l.last() != '\r'
    &&& forall|i: int| 0 <= i < l.len() ==> #[trigger] l[i] != '\n'
}

/// Lines joined by newlines split back into the same lines.
proof fn lemma_lines_join(ls: Seq<Seq<char>>)
    requires
        ls.len() > 0,
        forall|k: int| 0 <= k < ls.len() ==> one_line(#[trigger] ls[k]),
    ensures
        lines_of(join_seq(ls, seq!['\n'])) == ls,
    decreases ls.len(),
{
    assert(one_line(ls[0]));
    if ls.len() == 1 {
        lemma_lines_single(ls[0]);
        assert(lines_of(ls[0]) =~= ls);
    } else {
        lemma_join_front(ls, seq!['\n']);
        let rest = ls.drop_first();
        assert forall|k: int| 0 <= k < rest.len() implies one_line(#[trigger] rest[k]) by {
            assert(rest[k] == ls[k + 1]);
        }
        lemma_lines_join(rest);
        lemma_lines_cons(ls[0], join_seq(rest, seq!['\n']));
        assert(seq![ls[0]] + rest =~= ls);
    }
}

/// Every key is lower-case letters and underscores.
proof fn lemma_key_chars()
    ensures
        forall|i: int| 0 <= i < k_task_dir().len() ==> key_char(#[trigger] k_task_dir()[i]),
        forall|i: int| 0 <= i < k_editor().len() ==> key_char(#[trigger] k_editor()[i]),
        forall|i: int| 0 <= i < k_width().len() ==> key_char(#[trigger] k_width()[i]),
        forall|i: int| 0 <= i < k_min_width().len() ==> key_char(#[trigger] k_min_width()[i]),
        forall|i: int| 0 <= i < k_max_width().len() ==> key_char(#[trigger] k_max_width()[i]),
        forall|i: int| 0 <= i < k_help_bar().len() ==> key_char(#[trigger] k_help_bar()[i]),
        forall|i: int| 0 <= i < k_auto_update().len() ==> key_char(#[trigger] k_auto_update()[i]),
        forall|i: int| 0 <= i < k_highlighting().len() ==> key_char(#[trigger] k_highlighting()[i]),
{
}

/// The lines that `render` writes, one after the other.
spec fn pushed_lines(c: ConfigModel) -> Seq<Seq<char>> {
    let p1 = seq![line_of(k_task_dir(), c.task_dir)];
    let pe = match c.editor {
        Some(e) => p1.push(line_of(k_editor(), e)),
        None => p1,
    };
    pe.push(line_of(k_width(), decimal(c.sidebar_width as nat))).push(
        line_of(k_min_width(), decimal(c.sidebar_min_width as nat)),
    ).push(line_of(k_max_width(), decimal(c.sidebar_max_width as nat))).push(
        line_of(k_help_bar(), bool_text(c.show_help_bar)),
    ).push(line_of(k_auto_update(), bool_text(c.auto_update_on_edit))).push(
        line_of(k_highlighting(), bool_text(c.editor_highlighting)),
    )
}

#[verifier::spinoff_prover]
proof fn lemma_pushed_lines(c: ConfigModel)
    ensures
        rendered_lines(c) == pushed_lines(c),
{
    lemma_keys();
    assert(rendered_lines(c) =~= pushed_lines(c));
}

/// Each line that `render` writes is one line that does not end in `\r`.
#[verifier::spinoff_prover]
proof fn lemma_pushed_one_lines(c: ConfigModel)
    requires
        writable_config(c),
    ensures
        forall|k: int| 0 <= k < pushed_lines(c).len() ==> one_line(#[trigger] pushed_lines(c)[k]),
{
    lemma_key_chars();
    lemma_plain_ends(c.task_dir);
    lemma_width_text(c.sidebar_width);
    lemma_width_text(c.sidebar_min_width);
    lemma_width_text(c.sidebar_max_width);
    lemma_flag_text(c.show_help_bar);
    lemma_flag_text(c.auto_update_on_edit);
    lemma_flag_text(c.editor_highlighting);
    lemma_line_shape(k_task_dir(), c.task_dir);
    lemma_line_shape(k_width(), decimal(c.sidebar_width as nat));
    lemma_line_shape(k_min_width(), decimal(c.sidebar_min_width as nat));
    lemma_line_shape(k_max_width(), decimal(c.sidebar_max_width as nat));
    lemma_line_shape(k_help_bar(), bool_text(c.show_help_bar));
    lemma_line_shape(k_auto_update(), bool_text(c.auto_update_on_edit));
    lemma_line_shape(k_highlighting(), bool_text(c.editor_highlighting));
    if let Some(e) = c.editor {
        lemma_plain_ends(e);
        lemma_line_shape(k_editor(), e);
    }
    let p = pushed_lines(c);
    assert forall|k: int| 0 <= k < p.len() implies one_line(#[trigger] p[k]) by {
        let n = p.len() - 6;
        if k < n {
            if k == 0 {
                assert(p[0] == line_of(k_task_dir(), c.task_dir));
            } else {
                assert(p[1] == line_of(k_editor(), c.editor->0));
            }
        }
    }
}

/// What the settings read gives before the task directory is added.
spec fn read_back(c: ConfigModel) -> ReadState {
    ReadState { task_dir: Some(c.task_dir), cfg: ConfigModel { task_dir: seq![], ..c } }
}

#[verifier::spinoff_prover]
proof fn lemma_read_task_dir(c: ConfigModel)
    requires
        writable_config(c),
    ensures
        read_lines(seq![line_of(k_task_dir(), c.task_dir)]) == Some(ReadState { task_dir: Some(c.task_dir), ..initial_read() }),
{
    lemma_keys();
    lemma_key_chars();
    lemma_plain_ends(c.task_dir);
    lemma_setting_line(initial_read(), k_task_dir(), c.task_dir);
    lemma_read_push(Seq::<Seq<char>>::empty(), line_of(k_task_dir(), c.task_dir));
    assert(Seq::<Seq<char>>::empty().push(line_of(k_task_dir(), c.task_dir)) =~= seq![line_of(k_task_dir(), c.task_dir)]);
}

#[verifier::spinoff_prover]
proof fn lemma_read_editor(ls: Seq<Seq<char>>, st: ReadState, e: Seq<char>)
    requires
        read_lines(ls) == Some(st),
        plain_value(e),
    ensures
        read_lines(ls.push(line_of(k_editor(), e))) == Some(ReadState { cfg: ConfigModel { editor: Some(e), ..st.cfg }, ..st }),
{
    lemma_keys();
    lemma_key_chars();
    lemma_plain_ends(e);
    lemma_setting_line(st, k_editor(), e);
    lemma_read_push(ls, line_of(k_editor(), e));
}

#[verifier::spinoff_prover]
proof fn lemma_read_widths(ls: Seq<Seq<char>>, st: ReadState, w: u8, min: u8, max: u8)
    requires
        read_lines(ls) == Some(st),
        w <= 100,
        min <= 100,
        max <= 100,
    ensures
        read_lines(
            ls.push(line_of(k_width(), decimal(w as nat))).push(line_of(k_min_width(), decimal(min as nat))).push(
                line_of(k_max_width(), decimal(max as nat)),
            ),
        ) == Some(ReadState { cfg: ConfigModel { sidebar_width: w, sidebar_min_width: min, sidebar_max_width: max, ..st.cfg }, ..st }),
{
    lemma_keys();
    lemma_key_chars();
    let k1 = k_task_dir();
    let ke = k_editor();
    let k2 = k_width();
    let k3 = k_min_width();
    let k4 = k_max_width();
    assert(k2 != k1 && k2 != ke);
    assert(k3 != k1 && k3 != ke && k3 != k2);
    assert(k4[9] != k3[9]);
    assert(k4 != k1 && k4 != ke && k4 != k2 && k4 != k3);
    lemma_width_text(w);
    lemma_width_text(min);
    lemma_width_text(max);
    let v2 = decimal(w as nat);
    let v3 = decimal(min as nat);
    let v4 = decimal(max as nat);
    lemma_setting_line(st, k2, v2);
    let s2 = apply_setting(st, k2, v2);
    lemma_setting_line(s2, k3, v3);
    let s3 = apply_setting(s2, k3, v3);
    lemma_setting_line(s3, k4, v4);
    lemma_read_push(ls, line_of(k2, v2));
    lemma_read_push(ls.push(line_of(k2, v2)), line_of(k3, v3));
    lemma_read_push(ls.push(line_of(k2, v2)).push(line_of(k3, v3)), line_of(k4, v4));
}

#[verifier::spinoff_prover]
proof fn lemma_read_flags(ls: Seq<Seq<char>>, st: ReadState, help: bool, auto: bool, highlight: bool)
    requires
        read_lines(ls) == Some(st),
    ensures
        read_lines(
            ls.push(line_of(k_help_bar(), bool_text(help))).push(line_of(k_auto_update(), bool_text(auto))).push(
                line_of(k_highlighting(), bool_text(highlight)),
            ),
        ) == Some(ReadState {
            cfg: ConfigModel { show_help_bar: help, auto_update_on_edit: auto, editor_highlighting: highlight, ..st.cfg },
            ..st
        }),
{
    lemma_keys();
    lemma_key_chars();
    let k1 = k_task_dir();
    let ke = k_editor();
    let k2 = k_width();
    let k3 = k_min_width();
    let k4 = k_max_width();
    let k5 = k_help_bar();
    let k6 = k_auto_update();
    let k7 = k_highlighting();
    assert(k5[1] != k2[1]);
    assert(k5 != k1 && k5 != ke && k5 != k2 && k5 != k3 && k5 != k4);
    assert(k6 != k1 && k6 != ke && k6 != k2 && k6 != k3 && k6 != k4 && k6 != k5);
    assert(k7[0] != k6[0]);
    assert(k7 != k1 && k7 != ke && k7 != k2 && k7 != k3 && k7 != k4 && k7 != k5 && k7 != k6);
    lemma_flag_text(help);
    lemma_flag_text(auto);
    lemma_flag_text(highlight);
    let v5 = bool_text(help);
    let v6 = bool_text(auto);
    let v7 = bool_text(highlight);
    lemma_setting_line(st, k5, v5);
    let s5 = apply_setting(st, k5, v5);
    lemma_setting_line(s5, k6, v6);
    let s6 = apply_setting(s5, k6, v6);
    lemma_setting_line(s6, k7, v7);
    lemma_read_push(ls, line_of(k5, v5));
    lemma_read_push(ls.push(line_of(k5, v5)), line_of(k6, v6));
    lemma_read_push(ls.push(line_of(k5, v5)).push(line_of(k6, v6)), line_of(k7, v7));
}

proof fn lemma_skipped_line(pre: Seq<Seq<char>>, line: Seq<char>, post: Seq<Seq<char>>)
    requires
        trim(line).len() == 0 || trim(line)[0] == '#',
    ensures
        read_lines(pre.push(line) + post) == read_lines(pre + post),
    decreases post.len(),
{
    if post.len() == 0 {
        assert(pre.push(line) + post =~= pre.push(line));
        assert(pre + post =~= pre);
        assert(pre.push(line).drop_last() =~= pre);
    } else {
        lemma_skipped_line(pre, line, post.drop_last());
        assert((pre.push(line) + post).drop_last() =~= pre.push(line) + post.drop_last());
        assert((pre + post).drop_last() =~= pre + post.drop_last());
    }
}

/// A blank line, or one whose first non-blank character is `#`, is skipped:
/// it leaves the state of reading as it was, so adding such a line anywhere
/// among the lines of a configuration changes nothing that is read.
pub proof fn law_comments_and_blank_lines_are_skipped(
    st: ReadState,
    line: Seq<char>,
    pre: Seq<Seq<char>>,
    post: Seq<Seq<char>>,
)
    requires
        trim(line).len() == 0 || trim(line)[0] == '#',
    ensures
        read_line(st, line) == Some(st),
        read_lines(pre.push(line) + post) == read_lines(pre + post),
{
    lemma_skipped_line(pre, line, post);
}

/// A `task_dir=<d>` or `editor=<e>` line, read after any lines, sets that
/// one setting to its value (a value on one line without outer spaces)
/// and leaves every other setting as it was.
pub proof fn law_setting_lines(ls: Seq<Seq<char>>, st: ReadState, v: Seq<char>)
    requires
        read_lines(ls) == Some(st),
        plain_value(v),
    ensures
        read_lines(ls.push("editor="@ + v)) == Some(ReadState { cfg: ConfigModel { editor: Some(v), ..st.cfg }, ..st }),
        read_lines(ls.push("task_dir="@ + v)) == Some(ReadState { task_dir: Some(v), ..st }),
{
    lemma_keys();
    lemma_key_chars();
    lemma_plain_ends(v);
    lemma_read_editor(ls, st, v);
    assert(line_of(k_editor(), v) =~= "editor="@ + v);
    lemma_setting_line(st, k_task_dir(), v);
    lemma_read_push(ls, line_of(k_task_dir(), v));
    assert(line_of(k_task_dir(), v) =~= "task_dir="@ + v);
}

/// Reading back the text that `render` writes gives the same settings,
/// for settings that can be written (see `writable_config`).
pub proof fn law_config_roundtrip(c: ConfigModel)
    requires
        writable_config(c),
    ensures
        parsed_config(rendered_config(c)) == Ok::<ConfigModel, ConfigError>(c),
{
    lemma_pushed_lines(c);
    lemma_pushed_one_lines(c);
    lemma_lines_join(pushed_lines(c));
    lemma_keys();
    assert(lines_of(rendered_config(c)) == pushed_lines(c));
    let p1 = seq![line_of(k_task_dir(), c.task_dir)];
    lemma_read_task_dir(c);
    let s1 = ReadState { task_dir: Some(c.task_dir), ..initial_read() };
    let pe = match c.editor {
        Some(e) => p1.push(line_of(k_editor(), e)),
        None => p1,
    };
    let se = ReadState { cfg: ConfigModel { editor: c.editor, ..s1.cfg }, ..s1 };
    if let Some(e) = c.editor {
        lemma_read_editor(p1, s1, e);
    }
    assert(read_lines(pe) == Some(se));
    lemma_read_widths(pe, se, c.sidebar_width, c.sidebar_min_width, c.sidebar_max_width);
    let pw = pe.push(line_of(k_width(), decimal(c.sidebar_width as nat))).push(
        line_of(k_min_width(), decimal(c.sidebar_min_width as nat)),
    ).push(line_of(k_max_width(), decimal(c.sidebar_max_width as nat)));
    let sw = ReadState {
        cfg: ConfigModel {
            sidebar_width: c.sidebar_width,
            sidebar_min_width: c.sidebar_min_width,
            sidebar_max_width: c.sidebar_max_width,
            ..se.cfg
        },
        ..se
    };
    lemma_read_flags(pw, sw, c.show_help_bar, c.auto_update_on_edit, c.editor_highlighting);
    assert(read_lines(pushed_lines(c)) == Some(read_back(c)));
}

} // verus!
