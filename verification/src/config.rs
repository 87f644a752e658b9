//! The settings file: `key = value` lines read into the settings, and the
//! settings written back as such lines.
use vstd::prelude::*;
use crate::text::{
    concat_lines, is_first_index, is_white_space, lemma_lines_concat_lines, lemma_lines_push, lemma_trim_end_suffix,
    lemma_trim_start_prefix, push_char, starts_with, strip_cr, trim_end_by, trim_start_by,
    chars_of, is_text, lines, lines_of, parse_bool, parse_bool_chars, parse_u32_chars,
    parse_u8_chars, parse_unsigned, split_char, split_once, split_once_chars, split_trimmed,
    string_of, string_views_are, trim, trim_by, trim_chars, trim_chars_by, trim_each, views_are,
    CharClass,
};

verus! {

/// The window settings, which hold floating-point numbers and are read by the caller.
#[derive(Clone, Copy, Debug, PartialEq, Eq, Structural)]
pub enum WindowField {
    X,
    Y,
    Width,
    Height,
}

/// The settings, less the window geometry; for that, the raw values of its lines
/// are kept in file order.
pub struct AppConfig {
    pub selected_port: Option<String>,
    pub baud_rate: u32,
    pub data_bits: u8,
    pub parity: u8,
    pub stop_bits: u8,
    pub display_mode: String,
    pub receive_encoding: String,
    pub should_auto_scroll: bool,
    pub send_encoding: String,
    pub send_newline: bool,
    pub is_dark_mode: bool,
    pub show_settings_panel: bool,
    pub use_cloud_communication: bool,
    pub cloud_service: String,
    pub cloud_protocol: String,
    pub cloud_uid: String,
    pub cloud_subscribe_topics: Vec<String>,
    pub cloud_publish_topics: Vec<String>,
    pub show_cloud_debug_info: bool,
    pub dataflow_enabled: bool,
    pub use_dedicated_firmware: bool,
    pub shortcuts: Vec<String>,
    pub window_settings: Vec<(WindowField, String)>,
}

/// The settings as values.
pub struct ConfigModel {
    pub selected_port: Option<Seq<char>>,
    pub baud_rate: u32,
    pub data_bits: u8,
    pub parity: u8,
    pub stop_bits: u8,
    pub display_mode: Seq<char>,
    pub receive_encoding: Seq<char>,
    pub should_auto_scroll: bool,
    pub send_encoding: Seq<char>,
    pub send_newline: bool,
    pub is_dark_mode: bool,
    pub show_settings_panel: bool,
    pub use_cloud_communication: bool,
    pub cloud_service: Seq<char>,
    pub cloud_protocol: Seq<char>,
    pub cloud_uid: Seq<char>,
    pub cloud_subscribe_topics: Seq<Seq<char>>,
    pub cloud_publish_topics: Seq<Seq<char>>,
    pub show_cloud_debug_info: bool,
    pub dataflow_enabled: bool,
    pub use_dedicated_firmware: bool,
    pub shortcuts: Seq<Seq<char>>,
    pub window_settings: Seq<(WindowField, Seq<char>)>,
}

/// The views of a list of strings.
pub open spec fn views_of(v: Seq<String>) -> Seq<Seq<char>> {
    v.map_values(|s: String| s@)
}

impl View for AppConfig {
    type V = ConfigModel;

    open spec fn view(&self) -> ConfigModel {
        ConfigModel {
            selected_port: match self.selected_port {
                Some(p) => Some(p@),
                None => None,
            },
            baud_rate: self.baud_rate,
            data_bits: self.data_bits,
            parity: self.parity,
            stop_bits: self.stop_bits,
            display_mode: self.display_mode@,
            receive_encoding: self.receive_encoding@,
            should_auto_scroll: self.should_auto_scroll,
            send_encoding: self.send_encoding@,
            send_newline: self.send_newline,
            is_dark_mode: self.is_dark_mode,
            show_settings_panel: self.show_settings_panel,
            use_cloud_communication: self.use_cloud_communication,
            cloud_service: self.cloud_service@,
            cloud_protocol: self.cloud_protocol@,
            cloud_uid: self.cloud_uid@,
            cloud_subscribe_topics: views_of(self.cloud_subscribe_topics@),
            cloud_publish_topics: views_of(self.cloud_publish_topics@),
            show_cloud_debug_info: self.show_cloud_debug_info,
            dataflow_enabled: self.dataflow_enabled,
            use_dedicated_firmware: self.use_dedicated_firmware,
            shortcuts: views_of(self.shortcuts@),
            window_settings: self.window_settings@.map_values(
                |w: (WindowField, String)| (w.0, w.1@),
            ),
        }
    }
}

/// The settings before any file is read.
pub open spec fn default_model() -> ConfigModel {
    ConfigModel {
        selected_port: None,
        baud_rate: 115200,
        data_bits: 8,
        parity: 0,
        stop_bits: 1,
        display_mode: "UTF8"@,
        receive_encoding: "UTF-8"@,
        should_auto_scroll: true,
        send_encoding: "UTF-8"@,
        send_newline: false,
        is_dark_mode: false,
        show_settings_panel: false,
        use_cloud_communication: false,
        cloud_service: "巴法云"@,
        cloud_protocol: "TCP"@,
        cloud_uid: Seq::<char>::empty(),
        cloud_subscribe_topics: Seq::<Seq<char>>::empty(),
        cloud_publish_topics: Seq::<Seq<char>>::empty(),
        show_cloud_debug_info: true,
        dataflow_enabled: true,
        use_dedicated_firmware: false,
        shortcuts: Seq::<Seq<char>>::empty(),
        window_settings: Seq::empty(),
    }
}

/// A value without its surrounding double quotes.
pub open spec fn unquoted(value: Seq<char>) -> Seq<char> {
    trim_by(value, CharClass::Exactly('"'))
}

/// A comma-separated list, each item trimmed.
pub open spec fn comma_list(value: Seq<char>) -> Seq<Seq<char>> {
    trim_each(split_char(unquoted(value), ','))
}

/// The non-empty items of a list.
pub open spec fn nonempty_items(items: Seq<Seq<char>>) -> Seq<Seq<char>>
    decreases items.len(),
{
    if items.len() == 0 {
        Seq::<Seq<char>>::empty()
    } else if items.last().len() == 0 {
        nonempty_items(items.drop_last())
    } else {
        nonempty_items(items.drop_last()).push(items.last())
    }
}

/// The list with the element read from `current` added, where it is not blank:
/// trimmed, without surrounding quotes, and only if something is left.
pub open spec fn flush_item(items: Seq<Seq<char>>, current: Seq<char>) -> Seq<Seq<char>> {
    let t = trim(current);
    let item = trim_by(t, CharClass::Exactly('"'));
    if t.len() > 0 && item.len() > 0 {
        items.push(item)
    } else {
        items
    }
}

/// The scan of an array body: the elements completed so far, the element being
/// read, and whether the scan is inside double quotes. Commas outside quotes
/// end an element.
pub open spec fn array_scan(s: Seq<char>) -> (Seq<Seq<char>>, Seq<char>, bool)
    decreases s.len(),
{
    if s.len() == 0 {
        (Seq::<Seq<char>>::empty(), Seq::<char>::empty(), false)
    } else {
        let (items, current, in_quotes) = array_scan(s.drop_last());
        let c = s.last();
        if c == '"' {
            (items, current.push(c), !in_quotes)
        } else if c == ',' && !in_quotes {
            (flush_item(items, current), Seq::<char>::empty(), in_quotes)
        } else {
            (items, current.push(c), in_quotes)
        }
    }
}

/// The elements of an array body.
pub open spec fn array_items(s: Seq<char>) -> Seq<Seq<char>> {
    let (items, current, _) = array_scan(s);
    flush_item(items, current)
}

/// The shortcuts that a `shortcuts` value holds: a `[...]` array of quoted
/// commands, or else a comma-separated list whose empty items are dropped.
pub open spec fn shortcut_list(value: Seq<char>) -> Seq<Seq<char>> {
    if value.len() > 0 && value[0] == '[' && value.last() == ']' {
        array_items(trim_by(trim_by(value, CharClass::Exactly('[')), CharClass::Exactly(']')))
    } else {
        nonempty_items(comma_list(value))
    }
}

/// The settings after the line `key = value`.
pub open spec fn apply_setting(m: ConfigModel, key: Seq<char>, value: Seq<char>) -> ConfigModel {
    if key == "selected_port"@ {
        ConfigModel {
            selected_port: if value == "None"@ {
                None
            } else {
                Some(unquoted(value))
            },
            ..m
        }
    } else if key == "baud_rate"@ {
        match parse_unsigned(value, u32::MAX as int) {
            Some(v) => ConfigModel { baud_rate: v as u32, ..m },
            None => m,
        }
    } else if key == "data_bits"@ {
        match parse_unsigned(value, u8::MAX as int) {
            Some(v) => ConfigModel { data_bits: v as u8, ..m },
            None => m,
        }
    } else if key == "parity"@ {
        match parse_unsigned(value, u8::MAX as int) {
            Some(v) => ConfigModel { parity: v as u8, ..m },
            None => m,
        }
    } else if key == "stop_bits"@ {
        match parse_unsigned(value, u8::MAX as int) {
            Some(v) => ConfigModel { stop_bits: v as u8, ..m },
            None => m,
        }
    } else if key == "display_mode"@ {
        ConfigModel { display_mode: unquoted(value), ..m }
    } else if key == "receive_encoding"@ {
        ConfigModel { receive_encoding: unquoted(value), ..m }
    } else if key == "should_auto_scroll"@ {
        match parse_bool(value) {
            Some(b) => ConfigModel { should_auto_scroll: b, ..m },
            None => m,
        }
    } else if key == "send_encoding"@ {
        ConfigModel { send_encoding: unquoted(value), ..m }
    } else if key == "send_newline"@ {
        match parse_bool(value) {
            Some(b) => ConfigModel { send_newline: b, ..m },
            None => m,
        }
    } else if key == "is_dark_mode"@ {
        match parse_bool(value) {
            Some(b) => ConfigModel { is_dark_mode: b, ..m },
            None => m,
        }
    } else if key == "show_settings_panel"@ {
        match parse_bool(value) {
            Some(b) => ConfigModel { show_settings_panel: b, ..m },
            None => m,
        }
    } else if key == "use_cloud_communication"@ {
        match parse_bool(value) {
            Some(b) => ConfigModel { use_cloud_communication: b, ..m },
            None => m,
        }
    } else if key == "cloud_service"@ {
        ConfigModel { cloud_service: unquoted(value), ..m }
    } else if key == "cloud_protocol"@ {
        ConfigModel { cloud_protocol: unquoted(value), ..m }
    } else if key == "cloud_uid"@ {
        ConfigModel { cloud_uid: unquoted(value), ..m }
    } else if key == "cloud_subscribe_topics"@ {
        ConfigModel { cloud_subscribe_topics: comma_list(value), ..m }
    } else if key == "cloud_publish_topics"@ {
        ConfigModel { cloud_publish_topics: comma_list(value), ..m }
    } else if key == "show_cloud_debug_info"@ {
        match parse_bool(value) {
            Some(b) => ConfigModel { show_cloud_debug_info: b, ..m },
            None => m,
        }
    } else if key == "dataflow_enabled"@ {
        match parse_bool(value) {
            Some(b) => ConfigModel { dataflow_enabled: b, ..m },
            None => m,
        }
    } else if key == "use_dedicated_firmware"@ {
        match parse_bool(value) {
            Some(b) => ConfigModel { use_dedicated_firmware: b, ..m },
            None => m,
        }
    } else if key == "shortcuts"@ {
        ConfigModel { shortcuts: shortcut_list(value), ..m }
    } else if key == "cloud_subscribe_topic"@ {
        if unquoted(value).len() > 0 {
            ConfigModel { cloud_subscribe_topics: seq![unquoted(value)], ..m }
        } else {
            m
        }
    } else if key == "cloud_publish_topic"@ {
        if unquoted(value).len() > 0 {
            ConfigModel { cloud_publish_topics: seq![unquoted(value)], ..m }
        } else {
            m
        }
    } else if key == "window_x"@ {
        ConfigModel { window_settings: m.window_settings.push((WindowField::X, value)), ..m }
    } else if key == "window_y"@ {
        ConfigModel { window_settings: m.window_settings.push((WindowField::Y, value)), ..m }
    } else if key == "window_width"@ {
        ConfigModel { window_settings: m.window_settings.push((WindowField::Width, value)), ..m }
    } else if key == "window_height"@ {
        ConfigModel { window_settings: m.window_settings.push((WindowField::Height, value)), ..m }
    } else {
        m
    }
}

/// The settings after one line of the file: blank lines, `#` comments and lines
/// without `=` change nothing; otherwise the trimmed key and value apply.
pub open spec fn apply_line(m: ConfigModel, raw: Seq<char>) -> ConfigModel {
    let line = trim(raw);
    if line.len() == 0 || line[0] == '#' {
        m
    } else {
        match split_once(line, '=') {
            Some((key, value)) => apply_setting(m, trim(key), trim(value)),
            None => m,
        }
    }
}

/// The settings after the lines `ls`, from the defaults.
pub open spec fn settings_after(ls: Seq<Seq<char>>) -> ConfigModel
    decreases ls.len(),
{
    if ls.len() == 0 {
        default_model()
    } else {
        apply_line(settings_after(ls.drop_last()), ls.last())
    }
}

/// The settings that the file text `content` holds.
pub open spec fn settings_from_text(content: Seq<char>) -> ConfigModel {
    settings_after(lines(content))
}

/// A key that a settings line can set.
pub open spec fn is_setting_key(k: Seq<char>) -> bool {
    ||| k == "selected_port"@
    ||| k == "baud_rate"@
    ||| k == "data_bits"@
    ||| k == "parity"@
    ||| k == "stop_bits"@
    ||| k == "display_mode"@
    ||| k == "receive_encoding"@
    ||| k == "should_auto_scroll"@
    ||| k == "send_encoding"@
    ||| k == "send_newline"@
    ||| k == "is_dark_mode"@
    ||| k == "show_settings_panel"@
    ||| k == "use_cloud_communication"@
    ||| k == "cloud_service"@
    ||| k == "cloud_protocol"@
    ||| k == "cloud_uid"@
    ||| k == "cloud_subscribe_topics"@
    ||| k == "cloud_publish_topics"@
    ||| k == "show_cloud_debug_info"@
    ||| k == "dataflow_enabled"@
    ||| k == "use_dedicated_firmware"@
    ||| k == "shortcuts"@
    ||| k == "cloud_subscribe_topic"@
    ||| k == "cloud_publish_topic"@
    ||| k == "window_x"@
    ||| k == "window_y"@
    ||| k == "window_width"@
    ||| k == "window_height"@
}

/// A line that leaves the settings as they are: blank, a `#` comment, without `=`,
/// or with a key (trimmed, before the first `=`) that names no setting.
pub open spec fn ignorable_line(raw: Seq<char>) -> bool {
    let line = trim(raw);
    ||| line.len() == 0
    ||| line[0] == '#'
    ||| match split_once(line, '=') {
        Some((key, _)) => !is_setting_key(trim(key)),
        None => true,
    }
}

/// An ignorable line leaves the settings as they are.
pub proof fn lemma_ignorable_line(m: ConfigModel, raw: Seq<char>)
    requires
        ignorable_line(raw),
    ensures
        apply_line(m, raw) == m,
{
}

/// Ignorable lines inserted anywhere among the lines of a settings file change
/// nothing that is read from them.
pub proof fn lemma_ignorable_line_inserted(before: Seq<Seq<char>>, l: Seq<char>, after: Seq<Seq<char>>)
    requires
        ignorable_line(l),
    ensures
        settings_after(before.push(l) + after) == settings_after(before + after),
    decreases after.len(),
{
    if after.len() == 0 {
        assert(before.push(l) + after =~= before.push(l));
        assert(before + after =~= before);
        assert(before.push(l).drop_last() =~= before);
        lemma_ignorable_line(settings_after(before), l);
    } else {
        lemma_ignorable_line_inserted(before, l, after.drop_last());
        assert((before.push(l) + after).drop_last() =~= before.push(l) + after.drop_last());
        assert((before + after).drop_last() =~= before + after.drop_last());
    }
}

/// The lines that are not ignorable, in order.
pub open spec fn meaningful_lines(ls: Seq<Seq<char>>) -> Seq<Seq<char>>
    decreases ls.len(),
{
    if ls.len() == 0 {
        Seq::<Seq<char>>::empty()
    } else if ignorable_line(ls.last()) {
        meaningful_lines(ls.drop_last())
    } else {
        meaningful_lines(ls.drop_last()).push(ls.last())
    }
}

/// Lines read as their non-ignorable lines alone: blank lines, comments, lines
/// without `=` and lines with unknown keys, wherever and however many, change
/// nothing.
pub proof fn lemma_only_meaningful_lines_count(ls: Seq<Seq<char>>)
    ensures
        settings_after(ls) == settings_after(meaningful_lines(ls)),
    decreases ls.len(),
{
    if ls.len() > 0 {
        lemma_only_meaningful_lines_count(ls.drop_last());
        if ignorable_line(ls.last()) {
            lemma_ignorable_line(settings_after(ls.drop_last()), ls.last());
        } else {
            let m = meaningful_lines(ls.drop_last()).push(ls.last());
            assert(m.drop_last() =~= meaningful_lines(ls.drop_last()));
        }
    }
}

/// Two settings files whose lines differ only in ignorable lines read the same.
pub proof fn lemma_same_meaningful_lines_read_same(a: Seq<Seq<char>>, b: Seq<Seq<char>>)
    requires
        meaningful_lines(a) == meaningful_lines(b),
    ensures
        settings_after(a) == settings_after(b),
{
    lemma_only_meaningful_lines_count(a);
    lemma_only_meaningful_lines_count(b);
}

/// Two settings file texts whose lines differ only in ignorable lines read the same.
pub proof fn lemma_same_meaningful_text_reads_same(a: Seq<char>, b: Seq<char>)
    requires
        meaningful_lines(lines(a)) == meaningful_lines(lines(b)),
    ensures
        settings_from_text(a) == settings_from_text(b),
{
    lemma_same_meaningful_lines_read_same(lines(a), lines(b));
}

/// Printable ASCII text on one line, not quoted at its ends, is written plainly.
pub proof fn lemma_plain_ascii_written_plainly(s: Seq<char>)
    requires
        plain_ascii(s),
    ensures
        written_plainly(s),
{
    if s.len() > 0 {
        assert(s[0] != '"');
        assert(s[s.len() - 1] != '"');
    }
    if s.contains('\n') {
        let i = choose|i: int| 0 <= i < s.len() && s[i] == '\n';
        assert(' ' <= s[i]);
    }
}

/// A settings file with an ignorable line inserted between its lines reads as the
/// file without it (for lines without line breaks or trailing carriage returns).
pub proof fn lemma_ignorable_line_in_text(before: Seq<Seq<char>>, l: Seq<char>, after: Seq<Seq<char>>)
    requires
        ignorable_line(l),
        !l.contains('\n'),
        strip_cr(l) == l,
        forall|i: int| 0 <= i < before.len() ==> !(#[trigger] before[i]).contains('\n'),
        forall|i: int| 0 <= i < before.len() ==> strip_cr(#[trigger] before[i]) == before[i],
        forall|i: int| 0 <= i < after.len() ==> !(#[trigger] after[i]).contains('\n'),
        forall|i: int| 0 <= i < after.len() ==> strip_cr(#[trigger] after[i]) == after[i],
    ensures
        settings_from_text(concat_lines(before.push(l) + after)) == settings_from_text(
            concat_lines(before + after),
        ),
{
    let with = before.push(l) + after;
    let without = before + after;
    assert forall|i: int| 0 <= i < with.len() implies !(#[trigger] with[i]).contains('\n')
        && strip_cr(with[i]) == with[i] by {
        if i < before.len() {
            assert(with[i] == before[i]);
        } else if i > before.len() {
            assert(with[i] == after[i - before.len() - 1]);
        }
    }
    assert forall|i: int| 0 <= i < without.len() implies !(#[trigger] without[i]).contains('\n')
        && strip_cr(without[i]) == without[i] by {
        if i < before.len() {
            assert(without[i] == before[i]);
        } else {
            assert(without[i] == after[i - before.len()]);
        }
    }
    lemma_lines_concat_lines(with);
    lemma_lines_concat_lines(without);
    lemma_ignorable_line_inserted(before, l, after);
}

fn unquoted_string(value: &[char]) -> (res: String)
    ensures
        res@ == unquoted(value@),
{
    let t = trim_chars_by(value, CharClass::Exactly('"'));
    string_of(t.as_slice())
}

fn comma_list_strings(value: &[char]) -> (res: Vec<String>)
    ensures
        views_of(res@) == comma_list(value@),
{
    let u = trim_chars_by(value, CharClass::Exactly('"'));
    let items = split_trimmed(u.as_slice(), ',');
    assert(views_of(items@) =~= comma_list(value@));
    items
}

fn nonempty_strings(items: Vec<String>) -> (res: Vec<String>)
    ensures
        views_of(res@) == nonempty_items(views_of(items@)),
{
    let ghost all = views_of(items@);
    let mut res: Vec<String> = Vec::new();
    assert(all.take(0) =~= Seq::<Seq<char>>::empty());
    for i in 0..items.len()
        invariant
            all == views_of(items@),
            views_of(res@) == nonempty_items(all.take(i as int)),
    {
        assert(all.take(i + 1).drop_last() =~= all.take(i as int));
        assert(all.take(i + 1).last() == items@[i as int]@);
        if items[i].as_str().unicode_len() > 0 {
            let ghost before = res@;
            res.push(items[i].clone());
            assert(views_of(res@) =~= views_of(before).push(items@[i as int]@));
        }
    }
    assert(all.take(items@.len() as int) =~= all);
    res
}

fn flush_into(items: &mut Vec<String>, current: &[char])
    ensures
        views_of(final(items)@) == flush_item(views_of(old(items)@), current@),
{
    let t = trim_chars(current);
    let item = trim_chars_by(t.as_slice(), CharClass::Exactly('"'));
    if t.len() > 0 && item.len() > 0 {
        let ghost before = items@;
        items.push(string_of(item.as_slice()));
        assert(views_of(items@) =~= views_of(before).push(item@));
    }
}

fn array_item_strings(s: &[char]) -> (res: Vec<String>)
    ensures
        views_of(res@) == array_items(s@),
{
    let mut items: Vec<String> = Vec::new();
    let mut current: Vec<char> = Vec::new();
    let mut in_quotes = false;
    assert(s@.take(0) =~= Seq::<char>::empty());
    for i in 0..s.len()
        invariant
            (views_of(items@), current@, in_quotes) == array_scan(s@.take(i as int)),
    {
        let c = s[i];
        assert(s@.take(i + 1).drop_last() =~= s@.take(i as int));
        if c == '"' {
            in_quotes = !in_quotes;
            current.push(c);
        } else if c == ',' && !in_quotes {
            flush_into(&mut items, current.as_slice());
            current = Vec::new();
        } else {
            current.push(c);
        }
    }
    assert(s@.take(s@.len() as int) =~= s@);
    flush_into(&mut items, current.as_slice());
    items
}

fn shortcut_strings(value: &[char]) -> (res: Vec<String>)
    ensures
        views_of(res@) == shortcut_list(value@),
{
    let n = value.len();
    if n > 0 && value[0] == '[' && value[n - 1] == ']' {
        let a = trim_chars_by(value, CharClass::Exactly('['));
        let inner = trim_chars_by(a.as_slice(), CharClass::Exactly(']'));
        array_item_strings(inner.as_slice())
    } else {
        nonempty_strings(comma_list_strings(value))
    }
}

/// The shortcut entries of the settings: each non-empty command, sent with a line break.
pub fn shortcut_entries(shortcuts: &Vec<String>) -> (res: Vec<(String, bool)>)
    ensures
        res@.map_values(|e: (String, bool)| e.0@) == nonempty_items(views_of(shortcuts@)),
        forall|i: int| 0 <= i < res@.len() ==> (#[trigger] res@[i]).1,
{
    let kept = nonempty_strings(shortcuts.clone());
    assert(views_of(kept@) == nonempty_items(views_of(shortcuts@)));
    let mut res: Vec<(String, bool)> = Vec::new();
    for i in 0..kept.len()
        invariant
            res@.map_values(|e: (String, bool)| e.0@) == views_of(kept@).take(i as int),
            forall|k: int| 0 <= k < res@.len() ==> (#[trigger] res@[k]).1,
    {
        let ghost before = res@;
        let item = kept[i].clone();
        assert(item@ == views_of(kept@)[i as int]);
        res.push((item, true));
        assert(res@.map_values(|e: (String, bool)| e.0@) =~= before.map_values(
            |e: (String, bool)| e.0@,
        ).push(item@));
        assert(views_of(kept@).take(i + 1) =~= views_of(kept@).take(i as int).push(item@));
    }
    assert(views_of(kept@).take(kept@.len() as int) =~= views_of(kept@));
    res
}

impl Default for AppConfig {
    /// The settings before any file is read.
    fn default() -> (res: Self)
        ensures
            res@ == default_model(),
    {
        let res = AppConfig {
            selected_port: None,
            baud_rate: 115200,
            data_bits: 8,
            parity: 0,
            stop_bits: 1,
            display_mode: String::from_str("UTF8"),
            receive_encoding: String::from_str("UTF-8"),
            should_auto_scroll: true,
            send_encoding: String::from_str("UTF-8"),
            send_newline: false,
            is_dark_mode: false,
            show_settings_panel: false,
            use_cloud_communication: false,
            cloud_service: String::from_str("巴法云"),
            cloud_protocol: String::from_str("TCP"),
            cloud_uid: String::new(),
            cloud_subscribe_topics: Vec::new(),
            cloud_publish_topics: Vec::new(),
            show_cloud_debug_info: true,
            dataflow_enabled: true,
            use_dedicated_firmware: false,
            shortcuts: Vec::new(),
            window_settings: Vec::new(),
        };
        assert(res@.cloud_subscribe_topics =~= Seq::<Seq<char>>::empty());
        assert(res@.cloud_publish_topics =~= Seq::<Seq<char>>::empty());
        assert(res@.shortcuts =~= Seq::<Seq<char>>::empty());
        assert(res@.window_settings =~= Seq::<(WindowField, Seq<char>)>::empty());
        res
    }
}

impl AppConfig {
    fn record_window(&mut self, field: WindowField, value: &[char])
        ensures
            final(self)@ == (ConfigModel {
                window_settings: old(self)@.window_settings.push((field, value@)),
                ..old(self)@
            }),
    {
        let ghost before = self.window_settings@;
        self.window_settings.push((field, string_of(value)));
        assert(self@.window_settings =~= old(self)@.window_settings.push((field, value@)));
    }

    /// Applies the setting `key = value`.
    fn apply_setting(&mut self, key: &[char], value: &[char])
        ensures
            final(self)@ == apply_setting(old(self)@, key@, value@),
    {
        if is_text(key, "selected_port") {
            if is_text(value, "None") {
                self.selected_port = None;
            } else {
                self.selected_port = Some(unquoted_string(value));
            }
        } else if is_text(key, "baud_rate") {
            if let Some(v) = parse_u32_chars(value) {
                self.baud_rate = v;
            }
        } else if is_text(key, "data_bits") {
            if let Some(v) = parse_u8_chars(value) {
                self.data_bits = v;
            }
        } else if is_text(key, "parity") {
            if let Some(v) = parse_u8_chars(value) {
                self.parity = v;
            }
        } else if is_text(key, "stop_bits") {
            if let Some(v) = parse_u8_chars(value) {
                self.stop_bits = v;
            }
        } else if is_text(key, "display_mode") {
            self.display_mode = unquoted_string(value);
        } else if is_text(key, "receive_encoding") {
            self.receive_encoding = unquoted_string(value);
        } else {
            self.apply_setting_display(key, value);
        }
    }

    /// Applies the setting `key = value` for the keys after those handled before.
    fn apply_setting_display(&mut self, key: &[char], value: &[char])
        requires
            key@ != "selected_port"@,
            key@ != "baud_rate"@,
            key@ != "data_bits"@,
            key@ != "parity"@,
            key@ != "stop_bits"@,
            key@ != "display_mode"@,
            key@ != "receive_encoding"@,
        ensures
            final(self)@ == apply_setting(old(self)@, key@, value@),
    {
        if is_text(key, "should_auto_scroll") {
            if let Some(v) = parse_bool_chars(value) {
                self.should_auto_scroll = v;
            }
        } else if is_text(key, "send_encoding") {
            self.send_encoding = unquoted_string(value);
        } else if is_text(key, "send_newline") {
            if let Some(v) = parse_bool_chars(value) {
                self.send_newline = v;
            }
        } else if is_text(key, "is_dark_mode") {
            if let Some(v) = parse_bool_chars(value) {
                self.is_dark_mode = v;
            }
        } else if is_text(key, "show_settings_panel") {
            if let Some(v) = parse_bool_chars(value) {
                self.show_settings_panel = v;
            }
        } else if is_text(key, "use_cloud_communication") {
            if let Some(v) = parse_bool_chars(value) {
                self.use_cloud_communication = v;
            }
        } else if is_text(key, "cloud_service") {
            self.cloud_service = unquoted_string(value);
        } else {
            self.apply_setting_cloud(key, value);
        }
    }

    /// Applies the setting `key = value` for the keys after those handled before.
    fn apply_setting_cloud(&mut self, key: &[char], value: &[char])
        requires
            key@ != "selected_port"@,
            key@ != "baud_rate"@,
            key@ != "data_bits"@,
            key@ != "parity"@,
            key@ != "stop_bits"@,
            key@ != "display_mode"@,
            key@ != "receive_encoding"@,
            key@ != "should_auto_scroll"@,
            key@ != "send_encoding"@,
            key@ != "send_newline"@,
            key@ != "is_dark_mode"@,
            key@ != "show_settings_panel"@,
            key@ != "use_cloud_communication"@,
            key@ != "cloud_service"@,
        ensures
            final(self)@ == apply_setting(old(self)@, key@, value@),
    {
        if is_text(key, "cloud_protocol") {
            self.cloud_protocol = unquoted_string(value);
        } else if is_text(key, "cloud_uid") {
            self.cloud_uid = unquoted_string(value);
        } else if is_text(key, "cloud_subscribe_topics") {
            self.cloud_subscribe_topics = comma_list_strings(value);
        } else if is_text(key, "cloud_publish_topics") {
            self.cloud_publish_topics = comma_list_strings(value);
        } else if is_text(key, "show_cloud_debug_info") {
            if let Some(v) = parse_bool_chars(value) {
                self.show_cloud_debug_info = v;
            }
        } else if is_text(key, "dataflow_enabled") {
            if let Some(v) = parse_bool_chars(value) {
                self.dataflow_enabled = v;
            }
        } else if is_text(key, "use_dedicated_firmware") {
            if let Some(v) = parse_bool_chars(value) {
                self.use_dedicated_firmware = v;
            }
        } else {
            self.apply_setting_other(key, value);
        }
    }

    /// Applies the setting `key = value` for the keys after those handled before.
    fn apply_setting_other(&mut self, key: &[char], value: &[char])
        requires
            key@ != "selected_port"@,
            key@ != "baud_rate"@,
            key@ != "data_bits"@,
            key@ != "parity"@,
            key@ != "stop_bits"@,
            key@ != "display_mode"@,
            key@ != "receive_encoding"@,
            key@ != "should_auto_scroll"@,
            key@ != "send_encoding"@,
            key@ != "send_newline"@,
            key@ != "is_dark_mode"@,
            key@ != "show_settings_panel"@,
            key@ != "use_cloud_communication"@,
            key@ != "cloud_service"@,
            key@ != "cloud_protocol"@,
            key@ != "cloud_uid"@,
            key@ != "cloud_subscribe_topics"@,
            key@ != "cloud_publish_topics"@,
            key@ != "show_cloud_debug_info"@,
            key@ != "dataflow_enabled"@,
            key@ != "use_dedicated_firmware"@,
        ensures
            final(self)@ == apply_setting(old(self)@, key@, value@),
    {
        if is_text(key, "shortcuts") {
            self.shortcuts = shortcut_strings(value);
        } else if is_text(key, "cloud_subscribe_topic") {
            let topic = unquoted_string(value);
            if topic.as_str().unicode_len() > 0 {
                self.cloud_subscribe_topics = vec![topic];
                assert(views_of(self.cloud_subscribe_topics@) =~= seq![unquoted(value@)]);
            }
        } else if is_text(key, "cloud_publish_topic") {
            let topic = unquoted_string(value);
            if topic.as_str().unicode_len() > 0 {
                self.cloud_publish_topics = vec![topic];
                assert(views_of(self.cloud_publish_topics@) =~= seq![unquoted(value@)]);
            }
        } else if is_text(key, "window_x") {
            self.record_window(WindowField::X, value);
        } else if is_text(key, "window_y") {
            self.record_window(WindowField::Y, value);
        } else if is_text(key, "window_width") {
            self.record_window(WindowField::Width, value);
        } else if is_text(key, "window_height") {
            self.record_window(WindowField::Height, value);
        }
    }

    /// Applies one line of the settings file.
    fn apply_line(&mut self, raw: &[char])
        ensures
            final(self)@ == apply_line(old(self)@, raw@),
    {
        let line = trim_chars(raw);
        if line.len() == 0 || line[0] == '#' {
            return;
        }
        match split_once_chars(line.as_slice(), '=') {
            Some((key, value)) => {
                let k = trim_chars(key.as_slice());
                let v = trim_chars(value.as_slice());
                self.apply_setting(k.as_slice(), v.as_slice());
            },
            None => {},
        }
    }

    /// Reads the settings from the text of a settings file: each `key = value` line
    /// sets its setting, over the defaults; unknown keys, comments, blank lines and
    /// values that do not read leave the setting as it was.
    pub fn from_text(content: &str) -> (res: Self)
        ensures
            res@ == settings_from_text(content@),
    {
        let chars = chars_of(content);
        let ls = lines_of(chars.as_slice());
        let ghost spec_lines = lines(content@);
        let mut config = AppConfig::default();
        assert(spec_lines.take(0) =~= Seq::<Seq<char>>::empty());
        for i in 0..ls.len()
            invariant
                views_are(ls@, spec_lines),
                config@ == settings_after(spec_lines.take(i as int)),
        {
            assert(spec_lines.take(i + 1).drop_last() =~= spec_lines.take(i as int));
            assert(spec_lines.take(i + 1).last() == ls@[i as int]@);
            config.apply_line(ls[i].as_slice());
        }
        assert(spec_lines.take(ls@.len() as int) =~= spec_lines);
        config
    }
}

/// What `format!("{:?}", s)` writes for the string `s` (Rust string syntax, with
/// quotes and escapes).
pub uninterp spec fn debug_text(s: Seq<char>) -> Seq<char>;

/// Printable ASCII other than the double quote, the backslash and the single quote:
/// characters that `Debug` for `str` writes as themselves.
pub open spec fn plain_ascii(s: Seq<char>) -> bool {
    forall|i: int|
        0 <= i < s.len() ==> ' ' <= #[trigger] s[i] && s[i] <= '~' && s[i] != '"' && s[i] != '\\'
            && s[i] != '\''
}

/// What `format!("{:?}", s)` writes: `s` in double quotes where it is plain ASCII,
/// else the text named by `debug_text`.
pub open spec fn debug_written(s: Seq<char>) -> Seq<char> {
    if plain_ascii(s) {
        quote(s)
    } else {
        debug_text(s)
    }
}

/// Writes `s` in Rust string syntax with `format!("{:?}", s)`. The text is named by
/// `debug_text`; of the escaping of `Debug` for `str` the contract states only what
/// the documentation of `char::escape_debug` and `char::escape_default` gives for
/// printable ASCII: other than `"`, `\` and `'` it is written as itself, between
/// double quotes. Other characters are left unstated.
#[verifier::external_body]
fn debug_quoted(s: &str) -> (res: String)
    ensures
        res@ == debug_text(s@),
        plain_ascii(s@) ==> res@ == quote(s@),
{
    format!("{:?}", s)
}

/// The decimal digits of `n`.
pub open spec fn decimal(n: nat) -> Seq<char>
    decreases n,
{
    if n < 10 {
        seq![('0' as int + n) as char]
    } else {
        decimal(n / 10) + seq![('0' as int + n % 10) as char]
    }
}

/// `true` or `false`.
pub open spec fn bool_text(b: bool) -> Seq<char> {
    if b {
        "true"@
    } else {
        "false"@
    }
}

/// `s` in double quotes.
pub open spec fn quote(s: Seq<char>) -> Seq<char> {
    seq!['"'] + s + seq!['"']
}

/// The items written in Rust string syntax, separated by `, `.
pub open spec fn debug_list(items: Seq<Seq<char>>) -> Seq<char>
    decreases items.len(),
{
    if items.len() == 0 {
        Seq::<char>::empty()
    } else if items.len() == 1 {
        debug_written(items[0])
    } else {
        debug_list(items.drop_last()) + ", "@ + debug_written(items.last())
    }
}

/// The line of the selected port.
pub open spec fn port_setting(port: Option<Seq<char>>) -> Seq<char> {
    match port {
        Some(p) => "selected_port = "@ + quote(p),
        None => "selected_port = None"@,
    }
}

/// The lines of the settings file for the settings `m`, less the window lines that
/// the caller writes after them.
pub open spec fn settings_lines(m: ConfigModel) -> Seq<Seq<char>> {
    seq![
        port_setting(m.selected_port),
        "baud_rate = "@ + decimal(m.baud_rate as nat),
        "data_bits = "@ + decimal(m.data_bits as nat),
        "parity = "@ + decimal(m.parity as nat),
        "stop_bits = "@ + decimal(m.stop_bits as nat),
        "display_mode = "@ + debug_written(m.display_mode),
        "receive_encoding = "@ + debug_written(m.receive_encoding),
        "should_auto_scroll = "@ + bool_text(m.should_auto_scroll),
        "send_encoding = "@ + debug_written(m.send_encoding),
        "send_newline = "@ + bool_text(m.send_newline),
        "is_dark_mode = "@ + bool_text(m.is_dark_mode),
        "show_settings_panel = "@ + bool_text(m.show_settings_panel),
        "use_cloud_communication = "@ + bool_text(m.use_cloud_communication),
        "cloud_service = "@ + debug_written(m.cloud_service),
        "cloud_protocol = "@ + debug_written(m.cloud_protocol),
        "cloud_uid = "@ + debug_written(m.cloud_uid),
        "cloud_subscribe_topics = "@ + debug_written(crate::text::join(m.cloud_subscribe_topics, ", "@)),
        "cloud_publish_topics = "@ + debug_written(crate::text::join(m.cloud_publish_topics, ", "@)),
        "show_cloud_debug_info = "@ + bool_text(m.show_cloud_debug_info),
        "dataflow_enabled = "@ + bool_text(m.dataflow_enabled),
        "use_dedicated_firmware = "@ + bool_text(m.use_dedicated_firmware),
        "shortcuts = ["@ + debug_list(m.shortcuts) + "]"@,
    ]
}

/// The settings file text for the settings `m`, less the window lines.
pub open spec fn settings_text(m: ConfigModel) -> Seq<char> {
    concat_lines(settings_lines(m))
}

/// Appends `line` and a line break.
fn push_line(content: &mut String, line: &str, Ghost(done): Ghost<Seq<Seq<char>>>)
    requires
        old(content)@ == concat_lines(done),
    ensures
        final(content)@ == concat_lines(done.push(line@)),
{
    content.append(line);
    push_char(content, '\n');
    assert(done.push(line@).drop_last() =~= done);
}

/// Appends the decimal digits of `n`.
fn push_decimal(s: &mut String, n: u32)
    ensures
        final(s)@ == old(s)@ + decimal(n as nat),
    decreases n,
{
    if n >= 10 {
        push_decimal(s, n / 10);
    }
    let d = (n % 10) as u8;
    crate::text::push_char(s, (48u8 + d) as char);
    assert(final(s)@ =~= old(s)@ + decimal(n as nat)) by {
        if n >= 10 {
            assert(decimal(n as nat) == decimal((n / 10) as nat) + seq![('0' as int + n % 10) as char]);
        }
    }
}

fn push_bool(s: &mut String, b: bool)
    ensures
        final(s)@ == old(s)@ + bool_text(b),
{
    if b {
        s.append("true");
    } else {
        s.append("false");
    }
}

fn join_strings(items: &Vec<String>, sep: &str) -> (res: String)
    ensures
        res@ == crate::text::join(views_of(items@), sep@),
{
    let ghost all = views_of(items@);
    let mut res = String::new();
    assert(all.take(0) =~= Seq::<Seq<char>>::empty());
    for i in 0..items.len()
        invariant
            all == views_of(items@),
            res@ == crate::text::join(all.take(i as int), sep@),
    {
        assert(all.take(i + 1).drop_last() =~= all.take(i as int));
        assert(all.take(i + 1).last() == items@[i as int]@);
        if i > 0 {
            res.append(sep);
        } else {
            assert(all.take(1) =~= seq![items@[0]@]);
            assert(res@ + items@[0]@ =~= items@[0]@);
        }
        res.append(items[i].as_str());
    }
    assert(all.take(items@.len() as int) =~= all);
    res
}

fn debug_list_string(items: &Vec<String>) -> (res: String)
    ensures
        res@ == debug_list(views_of(items@)),
{
    let ghost all = views_of(items@);
    let mut res = String::new();
    assert(all.take(0) =~= Seq::<Seq<char>>::empty());
    for i in 0..items.len()
        invariant
            all == views_of(items@),
            res@ == debug_list(all.take(i as int)),
    {
        assert(all.take(i + 1).drop_last() =~= all.take(i as int));
        assert(all.take(i + 1).last() == items@[i as int]@);
        if i > 0 {
            res.append(", ");
        } else {
            assert(all.take(1) =~= seq![items@[0]@]);
        }
        let d = debug_quoted(items[i].as_str());
        if i == 0 {
            assert(res@ + d@ =~= d@);
        }
        res.append(d.as_str());
    }
    assert(all.take(items@.len() as int) =~= all);
    res
}

impl AppConfig {
    /// The settings file text for these settings, less the window lines.
    #[verifier::rlimit(60)]
    #[verifier::spinoff_prover]
    pub fn to_text(&self) -> (res: String)
        ensures
            res@ == settings_text(self@),
    {
        let mut content = String::new();
        let ghost mut lines: Seq<Seq<char>> = Seq::empty();
        let line = match &self.selected_port {
            Some(port) => {
                let mut l = String::from_str("selected_port = ");
                push_char(&mut l, '"');
                l.append(port.as_str());
                push_char(&mut l, '"');
                assert(l@ =~= "selected_port = "@ + quote(port@));
                l
            },
            None => String::from_str("selected_port = None"),
        };
        push_line(&mut content, line.as_str(), Ghost(lines));
        proof {
            lines = lines.push(line@);
        }
        let mut line = String::from_str("baud_rate = ");
        push_decimal(&mut line, self.baud_rate);
        push_line(&mut content, line.as_str(), Ghost(lines));
        proof {
            lines = lines.push(line@);
        }
        let mut line = String::from_str("data_bits = ");
        push_decimal(&mut line, self.data_bits as u32);
        push_line(&mut content, line.as_str(), Ghost(lines));
        proof {
            lines = lines.push(line@);
        }
        let mut line = String::from_str("parity = ");
        push_decimal(&mut line, self.parity as u32);
        push_line(&mut content, line.as_str(), Ghost(lines));
        proof {
            lines = lines.push(line@);
        }
        let mut line = String::from_str("stop_bits = ");
        push_decimal(&mut line, self.stop_bits as u32);
        push_line(&mut content, line.as_str(), Ghost(lines));
        proof {
            lines = lines.push(line@);
        }
        let mut line = String::from_str("display_mode = ");
        line.append(debug_quoted(self.display_mode.as_str()).as_str());
        push_line(&mut content, line.as_str(), Ghost(lines));
        proof {
            lines = lines.push(line@);
        }
        let mut line = String::from_str("receive_encoding = ");
        line.append(debug_quoted(self.receive_encoding.as_str()).as_str());
        push_line(&mut content, line.as_str(), Ghost(lines));
        proof {
            lines = lines.push(line@);
        }
        let mut line = String::from_str("should_auto_scroll = ");
        push_bool(&mut line, self.should_auto_scroll);
        push_line(&mut content, line.as_str(), Ghost(lines));
        proof {
            lines = lines.push(line@);
        }
        let mut line = String::from_str("send_encoding = ");
        line.append(debug_quoted(self.send_encoding.as_str()).as_str());
        push_line(&mut content, line.as_str(), Ghost(lines));
        proof {
            lines = lines.push(line@);
        }
        let mut line = String::from_str("send_newline = ");
        push_bool(&mut line, self.send_newline);
        push_line(&mut content, line.as_str(), Ghost(lines));
        proof {
            lines = lines.push(line@);
        }
        let mut line = String::from_str("is_dark_mode = ");
        push_bool(&mut line, self.is_dark_mode);
        push_line(&mut content, line.as_str(), Ghost(lines));
        proof {
            lines = lines.push(line@);
        }
        let mut line = String::from_str("show_settings_panel = ");
        push_bool(&mut line, self.show_settings_panel);
        push_line(&mut content, line.as_str(), Ghost(lines));
        proof {
            lines = lines.push(line@);
        }
        let mut line = String::from_str("use_cloud_communication = ");
        push_bool(&mut line, self.use_cloud_communication);
        push_line(&mut content, line.as_str(), Ghost(lines));
        proof {
            lines = lines.push(line@);
        }
        let mut line = String::from_str("cloud_service = ");
        line.append(debug_quoted(self.cloud_service.as_str()).as_str());
        push_line(&mut content, line.as_str(), Ghost(lines));
        proof {
            lines = lines.push(line@);
        }
        let mut line = String::from_str("cloud_protocol = ");
        line.append(debug_quoted(self.cloud_protocol.as_str()).as_str());
        push_line(&mut content, line.as_str(), Ghost(lines));
        proof {
            lines = lines.push(line@);
        }
        let mut line = String::from_str("cloud_uid = ");
        line.append(debug_quoted(self.cloud_uid.as_str()).as_str());
        push_line(&mut content, line.as_str(), Ghost(lines));
        proof {
            lines = lines.push(line@);
        }
        let mut line = String::from_str("cloud_subscribe_topics = ");
        let joined = join_strings(&self.cloud_subscribe_topics, ", ");
        line.append(debug_quoted(joined.as_str()).as_str());
        push_line(&mut content, line.as_str(), Ghost(lines));
        proof {
            lines = lines.push(line@);
        }
        let mut line = String::from_str("cloud_publish_topics = ");
        let joined = join_strings(&self.cloud_publish_topics, ", ");
        line.append(debug_quoted(joined.as_str()).as_str());
        push_line(&mut content, line.as_str(), Ghost(lines));
        proof {
            lines = lines.push(line@);
        }
        let mut line = String::from_str("show_cloud_debug_info = ");
        push_bool(&mut line, self.show_cloud_debug_info);
        push_line(&mut content, line.as_str(), Ghost(lines));
        proof {
            lines = lines.push(line@);
        }
        let mut line = String::from_str("dataflow_enabled = ");
        push_bool(&mut line, self.dataflow_enabled);
        push_line(&mut content, line.as_str(), Ghost(lines));
        proof {
            lines = lines.push(line@);
        }
        let mut line = String::from_str("use_dedicated_firmware = ");
        push_bool(&mut line, self.use_dedicated_firmware);
        push_line(&mut content, line.as_str(), Ghost(lines));
        proof {
            lines = lines.push(line@);
        }
        let mut line = String::from_str("shortcuts = [");
        line.append(debug_list_string(&self.shortcuts).as_str());
        line.append("]");
        push_line(&mut content, line.as_str(), Ghost(lines));
        proof {
            lines = lines.push(line@);
        }
        assert(lines =~= settings_lines(self@));
        content
    }
}

/// A line `key = value` sets `key` to `value`, where the key has no `=` and neither
/// key nor value has white space at its ends.
pub proof fn lemma_setting_line(m: ConfigModel, key: Seq<char>, value: Seq<char>)
    requires
        key.len() > 0,
        !key.contains('='),
        !is_white_space(key[0]),
        !is_white_space(key.last()),
        key[0] != '#',
        value.len() > 0,
        !is_white_space(value[0]),
        !is_white_space(value.last()),
    ensures
        apply_line(m, key + " = "@ + value) == apply_setting(m, key, value),
{
    reveal_strlit(" = ");
    let ws = CharClass::WhiteSpace;
    let line = key + " = "@ + value;
    assert(line[0] == key[0]);
    assert(line.last() == value.last());
    assert(trim_start_by(line, ws) == line);
    assert(trim_end_by(line, ws) == line);
    assert(trim(line) == line);
    let i = key.len() as int + 1;
    assert(line[i] == '=');
    assert forall|k: int| 0 <= k < i implies line[k] != '=' by {
        if k < key.len() {
            assert(line[k] == key[k]);
        } else {
            assert(line[k] == ' ');
        }
    }
    assert(is_first_index(line, '=', i));
    assert(line.contains('='));
    let j = choose|j: int| is_first_index(line, '=', j);
    assert(j == i) by {
        if j < i {
            assert(line[j] != '=');
        } else if j > i {
            assert(line[i] != '=');
        }
    }
    let before = line.take(i);
    let after = line.skip(i + 1);
    assert(before =~= key + seq![' ']);
    assert(after =~= seq![' '] + value);
    assert(trim(before) == key) by {
        assert((key + seq![' '])[0] == key[0]);
        assert(trim_start_by(key + seq![' '], ws) == key + seq![' ']);
        lemma_trim_end_suffix(key, seq![' '], ws);
        assert(trim_end_by(key, ws) == key);
    }
    assert(trim(after) == value) by {
        lemma_trim_start_prefix(seq![' '], value, ws);
        assert(trim_start_by(value, ws) == value);
        assert(trim_end_by(value, ws) == value);
    }
}

/// The decimal digits of a number read back as that number.
pub proof fn lemma_decimal_reads_back(n: nat, max: int)
    requires
        n <= max,
    ensures
        parse_unsigned(decimal(n), max) == Some(n as int),
        decimal(n).len() > 0,
        crate::text::is_digit(decimal(n)[0]),
        crate::text::is_digit(decimal(n).last()),
{
    lemma_decimal_digits(n);
    let d = decimal(n);
    assert(d[0] != '+');
}

pub proof fn lemma_decimal_digits(n: nat)
    ensures
        decimal(n).len() > 0,
        crate::text::all_digits(decimal(n)),
        crate::text::digits_value(decimal(n)) == n,
        crate::text::is_digit(decimal(n).last()),
    decreases n,
{
    if n >= 10 {
        lemma_decimal_digits(n / 10);
        let d = decimal(n);
        let c = ('0' as int + n % 10) as char;
        assert(d.drop_last() =~= decimal(n / 10));
        assert(d.last() == c);
        assert(c as int == '0' as int + n % 10);
        assert((n / 10) * 10 + n % 10 == n);
        assert forall|i: int| 0 <= i < d.len() implies crate::text::is_digit(#[trigger] d[i]) by {
            if i < d.len() - 1 {
                assert(d[i] == decimal(n / 10)[i]);
            }
        }
    } else {
        let d = decimal(n);
        assert(d.drop_last() =~= Seq::<char>::empty());
        assert(d.last() as int == '0' as int + n);
        assert(crate::text::digits_value(d.drop_last()) == 0);
    }
}

/// Text in double quotes, unquoted, is the text again, where it does not itself
/// start or end with a double quote.
pub proof fn lemma_unquote_quote(s: Seq<char>)
    requires
        s.len() == 0 || (s[0] != '"' && s.last() != '"'),
    ensures
        unquoted(quote(s)) == s,
{
    let q = CharClass::Exactly('"');
    let qs = quote(s);
    assert(qs.drop_first() =~= s + seq!['"']);
    assert(trim_start_by(qs, q) == trim_start_by(s + seq!['"'], q));
    if s.len() > 0 {
        assert((s + seq!['"'])[0] == s[0]);
        assert(trim_start_by(s + seq!['"'], q) == s + seq!['"']);
        lemma_trim_end_suffix(s, seq!['"'], q);
        assert(trim_end_by(s, q) == s);
    } else {
        assert(s + seq!['"'] =~= seq!['"']);
        assert(seq!['"'].drop_first() =~= Seq::<char>::empty());
        assert(trim_start_by(Seq::<char>::empty(), q) == Seq::<char>::empty());
        assert(seq!['"'][0] == '"');
        assert(trim_start_by(seq!['"'], q) =~= Seq::<char>::empty());
        assert(s =~= Seq::<char>::empty());
    }
}

/// Neither `a` nor `b` holds `c`, so neither does `a + b`.
pub proof fn lemma_concat_lacks(a: Seq<char>, b: Seq<char>, c: char)
    requires
        !a.contains(c),
        !b.contains(c),
    ensures
        !(a + b).contains(c),
{
    if (a + b).contains(c) {
        let i = choose|i: int| 0 <= i < (a + b).len() && (a + b)[i] == c;
        if i < a.len() {
            assert(a[i] == c);
        } else {
            assert(b[i - a.len()] == c);
        }
    }
}

/// Items joined with `, ` split on `,` and trimmed give the items again, where no
/// item holds a comma or white space at its ends.
pub proof fn lemma_comma_join_round_trip(ts: Seq<Seq<char>>)
    requires
        ts.len() > 0,
        forall|i: int| 0 <= i < ts.len() ==> !(#[trigger] ts[i]).contains(','),
        forall|i: int| 0 <= i < ts.len() ==> trim(#[trigger] ts[i]) == ts[i],
    ensures
        trim_each(split_char(crate::text::join(ts, ", "@), ',')) == ts,
    decreases ts.len(),
{
    reveal_strlit(", ");
    let ws = CharClass::WhiteSpace;
    if ts.len() == 1 {
        let t = ts[0];
        crate::text::lemma_split_append(Seq::<char>::empty(), t, ',');
        assert(Seq::<char>::empty() + t =~= t);
        assert(split_char(Seq::<char>::empty(), ',') =~= seq![Seq::<char>::empty()]);
        assert(split_char(t, ',') =~= seq![t]);
        assert(trim_each(seq![t]) =~= seq![trim(t)]);
        assert(ts =~= seq![t]);
    } else {
        let rest = ts.drop_last();
        let t = ts.last();
        assert forall|i: int| 0 <= i < rest.len() implies !(#[trigger] rest[i]).contains(',') && trim(
            rest[i],
        ) == rest[i] by {
            assert(rest[i] == ts[i]);
        }
        lemma_comma_join_round_trip(rest);
        let j = crate::text::join(rest, ", "@);
        assert(crate::text::join(ts, ", "@) == j + ", "@ + t);
        assert(", "@ =~= seq![',', ' ']);
        assert(!t.contains(',')) by {
            assert(ts[ts.len() - 1] == t);
        }
        assert(!(seq![' '] + t).contains(',')) by {
            assert(!seq![' '].contains(','));
            lemma_concat_lacks(seq![' '], t, ',');
        }
        let jc = j.push(',');
        assert(j + ", "@ + t =~= jc + (seq![' '] + t));
        assert(jc.drop_last() =~= j);
        assert(split_char(jc, ',') == split_char(j, ',').push(Seq::<char>::empty()));
        crate::text::lemma_split_append(jc, seq![' '] + t, ',');
        let parts = split_char(j, ',').push(Seq::<char>::empty());
        assert(parts.last() + (seq![' '] + t) =~= seq![' '] + t);
        let all = split_char(j + ", "@ + t, ',');
        assert(all =~= split_char(j, ',').push(seq![' '] + t));
        lemma_trim_start_prefix(seq![' '], t, ws);
        assert(trim(seq![' '] + t) == trim(t));
        assert(trim(t) == t) by {
            assert(ts[ts.len() - 1] == t);
        }
        assert(trim_each(all) =~= trim_each(split_char(j, ',')).push(t));
        assert(rest.push(t) =~= ts);
    }
}

/// The state of the array scan after a run of characters that neither quote nor,
/// outside quotes, separate: the run joins the element being read.
pub proof fn lemma_scan_plain_run(p: Seq<char>, x: Seq<char>)
    requires
        !x.contains('"'),
        !array_scan(p).2 ==> !x.contains(','),
    ensures
        array_scan(p + x) == (array_scan(p).0, array_scan(p).1 + x, array_scan(p).2),
    decreases x.len(),
{
    if x.len() == 0 {
        assert(p + x =~= p);
        assert(array_scan(p).1 + x =~= array_scan(p).1);
    } else {
        let x0 = x.drop_last();
        assert(!x0.contains('"') && (!array_scan(p).2 ==> !x0.contains(','))) by {
            if x0.contains('"') {
                let i = choose|i: int| 0 <= i < x0.len() && x0[i] == '"';
                assert(x[i] == '"');
            }
            if x0.contains(',') {
                let i = choose|i: int| 0 <= i < x0.len() && x0[i] == ',';
                assert(x[i] == ',');
            }
        }
        lemma_scan_plain_run(p, x0);
        assert((p + x).drop_last() =~= p + x0);
        assert((p + x).last() == x.last());
        assert(x.last() != '"') by {
            assert(x[x.len() - 1] == x.last());
        }
        assert(!array_scan(p).2 ==> x.last() != ',') by {
            assert(x[x.len() - 1] == x.last());
        }
        assert((array_scan(p).1 + x0).push(x.last()) =~= array_scan(p).1 + x);
    }
}

/// A quoted element without quotes inside is read whole into the current element.
pub proof fn lemma_scan_quoted(p: Seq<char>, s: Seq<char>)
    requires
        !s.contains('"'),
        !array_scan(p).2,
    ensures
        array_scan(p + quote(s)) == (array_scan(p).0, array_scan(p).1 + quote(s), false),
{
    let (items, cur, _) = array_scan(p);
    let p1 = p.push('"');
    assert(p1.drop_last() =~= p);
    assert(array_scan(p1) == (items, cur.push('"'), true));
    lemma_scan_plain_run(p1, s);
    let p2 = p1 + s;
    let p3 = p2.push('"');
    assert(p3.drop_last() =~= p2);
    assert(p + quote(s) =~= p3);
    assert(cur.push('"') + s + seq!['"'] =~= cur + quote(s));
}

/// The elements written by `debug_list` with plain quoting are read back by the
/// array scan: the completed elements are all but the last, which is being read.
pub proof fn lemma_scan_debug_list(ss: Seq<Seq<char>>)
    requires
        ss.len() > 0,
        forall|i: int| 0 <= i < ss.len() ==> (#[trigger] ss[i]).len() > 0 && !ss[i].contains('"')
            && debug_written(ss[i]) == quote(ss[i]),
    ensures
        array_scan(debug_list(ss)).0 == ss.drop_last(),
        array_scan(debug_list(ss)).2 == false,
        trim(array_scan(debug_list(ss)).1) == quote(ss.last()),
    decreases ss.len(),
{
    reveal_strlit(", ");
    let ws = CharClass::WhiteSpace;
    let s = ss.last();
    assert(s.len() > 0 && !s.contains('"') && debug_written(s) == quote(s)) by {
        assert(ss[ss.len() - 1] == s);
    }
    let qs = quote(s);
    assert(qs[0] == '"' && qs.last() == '"');
    if ss.len() == 1 {
        assert(debug_list(ss) == quote(s));
        assert(array_scan(Seq::<char>::empty()) == (
            Seq::<Seq<char>>::empty(),
            Seq::<char>::empty(),
            false,
        ));
        lemma_scan_quoted(Seq::<char>::empty(), s);
        assert(Seq::<char>::empty() + qs =~= qs);
        assert(Seq::<char>::empty() + qs =~= qs);
        assert(trim_start_by(qs, ws) == qs);
        assert(trim_end_by(qs, ws) == qs);
        assert(ss.drop_last() =~= Seq::<Seq<char>>::empty());
    } else {
        let rest = ss.drop_last();
        assert forall|i: int| 0 <= i < rest.len() implies (#[trigger] rest[i]).len() > 0
            && !rest[i].contains('"') && debug_written(rest[i]) == quote(rest[i]) by {
            assert(rest[i] == ss[i]);
        }
        lemma_scan_debug_list(rest);
        let d = debug_list(rest);
        let (items, cur, q) = array_scan(d);
        assert(debug_list(ss) == d + ", "@ + qs);
        let d1 = d.push(',');
        assert(d1.drop_last() =~= d);
        assert(array_scan(d1) == (flush_item(items, cur), Seq::<char>::empty(), false));
        let d2 = d1.push(' ');
        assert(d2.drop_last() =~= d1);
        assert(array_scan(d2) == (flush_item(items, cur), seq![' '], false));
        lemma_scan_quoted(d2, s);
        assert(d + ", "@ + qs =~= d2 + qs);
        let last_rest = rest.last();
        assert(last_rest.len() > 0 && !last_rest.contains('"')) by {
            assert(rest[rest.len() - 1] == last_rest);
        }
        assert(trim_by(quote(last_rest), CharClass::Exactly('"')) == last_rest) by {
            lemma_unquote_quote(last_rest);
        }
        assert(flush_item(items, cur) == rest.drop_last().push(last_rest));
        assert(rest.drop_last().push(last_rest) =~= ss.drop_last());
        lemma_trim_start_prefix(seq![' '], qs, ws);
        assert(seq![' '] + qs == seq![' '].add(qs));
        assert(trim_start_by(qs, ws) == qs);
        assert(trim_end_by(qs, ws) == qs);
    }
}

/// Shortcuts written as a `[...]` array of plainly quoted commands read back.
pub proof fn lemma_shortcuts_round_trip(ss: Seq<Seq<char>>)
    requires
        forall|i: int| 0 <= i < ss.len() ==> (#[trigger] ss[i]).len() > 0 && !ss[i].contains('"')
            && debug_written(ss[i]) == quote(ss[i]),
    ensures
        shortcut_list(seq!['['] + debug_list(ss) + seq![']']) == ss,
{
    let d = debug_list(ss);
    let v = seq!['['] + d + seq![']'];
    let open = CharClass::Exactly('[');
    let close = CharClass::Exactly(']');
    assert(v[0] == '[' && v.last() == ']');
    if ss.len() == 0 {
        assert(d =~= Seq::<char>::empty());
        assert(v =~= seq!['[', ']']);
        assert(v.drop_first() =~= seq![']']);
        assert(trim_start_by(v, open) == trim_start_by(seq![']'], open));
        assert(trim_start_by(seq![']'], open) == seq![']']);
        assert(trim_end_by(seq![']'], open) == seq![']']);
        assert(seq![']'].drop_first() =~= Seq::<char>::empty());
        assert(trim_start_by(Seq::<char>::empty(), close) == Seq::<char>::empty());
        assert(trim_start_by(seq![']'], close) == Seq::<char>::empty());
        assert(trim_end_by(Seq::<char>::empty(), close) == Seq::<char>::empty());
        assert(array_scan(Seq::<char>::empty()).1.len() == 0);
        assert(trim(Seq::<char>::empty()) =~= Seq::<char>::empty());
        assert(ss =~= Seq::<Seq<char>>::empty());
    } else {
        lemma_scan_debug_list(ss);
        let s0 = ss[0];
        assert(d.len() > 0 && d[0] == '"' && d.last() == '"') by {
            lemma_debug_list_ends(ss);
        }
        lemma_trim_start_prefix(seq!['['], d + seq![']'], open);
        assert(v =~= seq!['['] + (d + seq![']']));
        assert((d + seq![']'])[0] == '"');
        assert(trim_start_by(d + seq![']'], open) == d + seq![']']);
        assert((d + seq![']']).last() == ']');
        assert(trim_end_by(d + seq![']'], open) == d + seq![']']);
        assert(trim_start_by(d + seq![']'], close) == d + seq![']']);
        lemma_trim_end_suffix(d, seq![']'], close);
        assert(trim_end_by(d, close) == d);
        let (items, cur, _) = array_scan(d);
        let last = ss.last();
        assert(last.len() > 0 && !last.contains('"')) by {
            assert(ss[ss.len() - 1] == last);
        }
        lemma_unquote_quote(last);
        assert(items.push(last) =~= ss);
    }
}

proof fn lemma_debug_list_ends(ss: Seq<Seq<char>>)
    requires
        ss.len() > 0,
        forall|i: int| 0 <= i < ss.len() ==> (#[trigger] ss[i]).len() > 0 && !ss[i].contains('"')
            && debug_written(ss[i]) == quote(ss[i]),
    ensures
        debug_list(ss).len() > 0,
        debug_list(ss)[0] == '"',
        debug_list(ss).last() == '"',
    decreases ss.len(),
{
    let s = ss.last();
    assert(debug_written(s) == quote(s)) by {
        assert(ss[ss.len() - 1] == s);
    }
    if ss.len() > 1 {
        let rest = ss.drop_last();
        assert forall|i: int| 0 <= i < rest.len() implies (#[trigger] rest[i]).len() > 0
            && !rest[i].contains('"') && debug_written(rest[i]) == quote(rest[i]) by {
            assert(rest[i] == ss[i]);
        }
        lemma_debug_list_ends(rest);
    }
}

/// Plain text: written by `Debug` as itself between double quotes (as printable
/// ASCII and, for instance, printable Chinese text are), not itself quoted at its
/// ends, and on one line.
pub open spec fn written_plainly(s: Seq<char>) -> bool {
    &&& debug_written(s) == quote(s)
    &&& quotable(s)
    &&& single_line(s)
}

/// Text that does not start or end with a double quote.
pub open spec fn quotable(s: Seq<char>) -> bool {
    s.len() == 0 || (s[0] != '"' && s.last() != '"')
}

/// Text without a line break.
pub open spec fn single_line(s: Seq<char>) -> bool {
    !s.contains('\n')
}

/// A topic list that reads back: not empty, topics without commas or white space at
/// their ends, and the joined list written plainly.
pub open spec fn topics_round_trip(ts: Seq<Seq<char>>) -> bool {
    &&& ts.len() > 0
    &&& forall|i: int| 0 <= i < ts.len() ==> !(#[trigger] ts[i]).contains(',')
    &&& forall|i: int| 0 <= i < ts.len() ==> trim(#[trigger] ts[i]) == ts[i]
    &&& written_plainly(crate::text::join(ts, ", "@))
}

/// Shortcuts that read back: non-empty, without double quotes or line breaks, each
/// written by `Debug` as itself between double quotes.
pub open spec fn shortcuts_round_trip(ss: Seq<Seq<char>>) -> bool {
    forall|i: int|
        0 <= i < ss.len() ==> (#[trigger] ss[i]).len() > 0 && !ss[i].contains('"') && single_line(
            ss[i],
        ) && debug_written(ss[i]) == quote(ss[i])
}

/// Settings that read back from the file written from them.
pub open spec fn settings_round_trip(m: ConfigModel) -> bool {
    &&& (m.selected_port matches Some(p) ==> quotable(p) && single_line(p))
    &&& written_plainly(m.display_mode)
    &&& written_plainly(m.receive_encoding)
    &&& written_plainly(m.send_encoding)
    &&& written_plainly(m.cloud_service)
    &&& written_plainly(m.cloud_protocol)
    &&& written_plainly(m.cloud_uid)
    &&& topics_round_trip(m.cloud_subscribe_topics)
    &&& topics_round_trip(m.cloud_publish_topics)
    &&& shortcuts_round_trip(m.shortcuts)
    &&& m.window_settings.len() == 0
}

proof fn lemma_quote_single_line(s: Seq<char>)
    requires
        single_line(s),
    ensures
        !quote(s).contains('\n'),
        quote(s)[0] == '"',
        quote(s).last() == '"',
{
    lemma_concat_lacks(seq!['"'], s, '\n');
    lemma_concat_lacks(seq!['"'] + s, seq!['"'], '\n');
}

proof fn lemma_decimal_single_line(n: nat)
    ensures
        !decimal(n).contains('\n'),
{
    lemma_decimal_digits(n);
    if decimal(n).contains('\n') {
        let i = choose|i: int| 0 <= i < decimal(n).len() && decimal(n)[i] == '\n';
        assert(crate::text::is_digit(decimal(n)[i]));
    }
}

proof fn lemma_debug_list_single_line(ss: Seq<Seq<char>>)
    requires
        shortcuts_round_trip(ss),
    ensures
        !debug_list(ss).contains('\n'),
    decreases ss.len(),
{
    reveal_strlit(", ");
    if ss.len() == 1 {
        lemma_quote_single_line(ss[0]);
    } else if ss.len() > 1 {
        let rest = ss.drop_last();
        assert forall|i: int| 0 <= i < rest.len() implies (#[trigger] rest[i]).len() > 0
            && !rest[i].contains('"') && single_line(rest[i]) && debug_written(rest[i]) == quote(
            rest[i],
        ) by {
            assert(rest[i] == ss[i]);
        }
        lemma_debug_list_single_line(rest);
        let last = ss.last();
        assert(single_line(last) && debug_written(last) == quote(last)) by {
            assert(ss[ss.len() - 1] == last);
        }
        lemma_quote_single_line(last);
        lemma_concat_lacks(debug_list(rest), ", "@, '\n');
        lemma_concat_lacks(debug_list(rest) + ", "@, quote(last), '\n');
    } else {
        assert(debug_list(ss) =~= Seq::<char>::empty());
    }
}

/// The `selected_port` line of the settings file reads back as the setting it was written from.
proof fn lemma_reads_selected_port(s: ConfigModel, m: ConfigModel)
    requires
        m.selected_port matches Some(p) ==> quotable(p) && single_line(p),
    ensures
        apply_line(s, port_setting(m.selected_port)) == (ConfigModel { selected_port: m.selected_port, ..s }),
        !(port_setting(m.selected_port)).contains('\n'),
        strip_cr(port_setting(m.selected_port)) == port_setting(m.selected_port),
{
    reveal_strlit("selected_port");
    reveal_strlit(" = ");
    reveal_strlit("selected_port = ");
    reveal_strlit("selected_port = None");
    reveal_strlit("None");
    match m.selected_port {
        Some(p) => {
            let v = quote(p);
            assert(v[0] == '"' && v.last() == '"');
            assert(v != "None"@) by {
                assert(v[0] != "None"@[0]);
            }
            lemma_unquote_quote(p);
            assert(!v.contains('\n')) by {
                lemma_concat_lacks(seq!['"'], p, '\n');
                lemma_concat_lacks(seq!['"'] + p, seq!['"'], '\n');
            }
            assert("selected_port = "@ + v =~= "selected_port"@ + " = "@ + v);
            lemma_concat_lacks("selected_port = "@, v, '\n');
            lemma_setting_line(s, "selected_port"@, v);
        },
        None => {
            assert("selected_port = None"@ =~= "selected_port"@ + " = "@ + "None"@);
            lemma_setting_line(s, "selected_port"@, "None"@);
        },
    }
}

/// The `baud_rate` line of the settings file reads back as the setting it was written from.
proof fn lemma_reads_baud_rate(s: ConfigModel, m: ConfigModel)
    ensures
        apply_line(s, "baud_rate = "@ + decimal(m.baud_rate as nat)) == (ConfigModel { baud_rate: m.baud_rate, ..s }),
        !("baud_rate = "@ + decimal(m.baud_rate as nat)).contains('\n'),
        strip_cr("baud_rate = "@ + decimal(m.baud_rate as nat)) == "baud_rate = "@ + decimal(m.baud_rate as nat),
{
    reveal_strlit("baud_rate");
    reveal_strlit(" = ");
    reveal_strlit("selected_port");
    assert("baud_rate"@ != "selected_port"@) by {
        assert("baud_rate"@.len() != "selected_port"@.len());
    }
    reveal_strlit("baud_rate = ");
    let v = decimal(m.baud_rate as nat);
    lemma_decimal_reads_back(m.baud_rate as nat, u32::MAX as int);
    lemma_decimal_single_line(m.baud_rate as nat);
    assert("baud_rate = "@ + v =~= "baud_rate"@ + " = "@ + v);
    lemma_concat_lacks("baud_rate = "@, v, '\n');
    lemma_setting_line(s, "baud_rate"@, v);
}

/// The `data_bits` line of the settings file reads back as the setting it was written from.
proof fn lemma_reads_data_bits(s: ConfigModel, m: ConfigModel)
    ensures
        apply_line(s, "data_bits = "@ + decimal(m.data_bits as nat)) == (ConfigModel { data_bits: m.data_bits, ..s }),
        !("data_bits = "@ + decimal(m.data_bits as nat)).contains('\n'),
        strip_cr("data_bits = "@ + decimal(m.data_bits as nat)) == "data_bits = "@ + decimal(m.data_bits as nat),
{
    reveal_strlit("data_bits");
    reveal_strlit(" = ");
    reveal_strlit("selected_port");
    reveal_strlit("baud_rate");
    assert("data_bits"@ != "selected_port"@) by {
        assert("data_bits"@.len() != "selected_port"@.len());
    }
    assert("data_bits"@ != "baud_rate"@) by {
        assert("data_bits"@[0] != "baud_rate"@[0]);
    }
    reveal_strlit("data_bits = ");
    let v = decimal(m.data_bits as nat);
    lemma_decimal_reads_back(m.data_bits as nat, u8::MAX as int);
    lemma_decimal_single_line(m.data_bits as nat);
    assert("data_bits = "@ + v =~= "data_bits"@ + " = "@ + v);
    lemma_concat_lacks("data_bits = "@, v, '\n');
    lemma_setting_line(s, "data_bits"@, v);
}

/// The `parity` line of the settings file reads back as the setting it was written from.
proof fn lemma_reads_parity(s: ConfigModel, m: ConfigModel)
    ensures
        apply_line(s, "parity = "@ + decimal(m.parity as nat)) == (ConfigModel { parity: m.parity, ..s }),
        !("parity = "@ + decimal(m.parity as nat)).contains('\n'),
        strip_cr("parity = "@ + decimal(m.parity as nat)) == "parity = "@ + decimal(m.parity as nat),
{
    reveal_strlit("parity");
    reveal_strlit(" = ");
    reveal_strlit("selected_port");
    reveal_strlit("baud_rate");
    reveal_strlit("data_bits");
    assert("parity"@ != "selected_port"@) by {
        assert("parity"@.len() != "selected_port"@.len());
    }
    assert("parity"@ != "baud_rate"@) by {
        assert("parity"@.len() != "baud_rate"@.len());
    }
    assert("parity"@ != "data_bits"@) by {
        assert("parity"@.len() != "data_bits"@.len());
    }
    reveal_strlit("parity = ");
    let v = decimal(m.parity as nat);
    lemma_decimal_reads_back(m.parity as nat, u8::MAX as int);
    lemma_decimal_single_line(m.parity as nat);
    assert("parity = "@ + v =~= "parity"@ + " = "@ + v);
    lemma_concat_lacks("parity = "@, v, '\n');
    lemma_setting_line(s, "parity"@, v);
}

/// The `stop_bits` line of the settings file reads back as the setting it was written from.
proof fn lemma_reads_stop_bits(s: ConfigModel, m: ConfigModel)
    ensures
        apply_line(s, "stop_bits = "@ + decimal(m.stop_bits as nat)) == (ConfigModel { stop_bits: m.stop_bits, ..s }),
        !("stop_bits = "@ + decimal(m.stop_bits as nat)).contains('\n'),
        strip_cr("stop_bits = "@ + decimal(m.stop_bits as nat)) == "stop_bits = "@ + decimal(m.stop_bits as nat),
{
    reveal_strlit("stop_bits");
    reveal_strlit(" = ");
    reveal_strlit("selected_port");
    reveal_strlit("baud_rate");
    reveal_strlit("data_bits");
    reveal_strlit("parity");
    assert("stop_bits"@ != "selected_port"@) by {
        assert("stop_bits"@.len() != "selected_port"@.len());
    }
    assert("stop_bits"@ != "baud_rate"@) by {
        assert("stop_bits"@[0] != "baud_rate"@[0]);
    }
    assert("stop_bits"@ != "data_bits"@) by {
        assert("stop_bits"@[0] != "data_bits"@[0]);
    }
    assert("stop_bits"@ != "parity"@) by {
        assert("stop_bits"@.len() != "parity"@.len());
    }
    reveal_strlit("stop_bits = ");
    let v = decimal(m.stop_bits as nat);
    lemma_decimal_reads_back(m.stop_bits as nat, u8::MAX as int);
    lemma_decimal_single_line(m.stop_bits as nat);
    assert("stop_bits = "@ + v =~= "stop_bits"@ + " = "@ + v);
    lemma_concat_lacks("stop_bits = "@, v, '\n');
    lemma_setting_line(s, "stop_bits"@, v);
}

/// The `display_mode` line of the settings file reads back as the setting it was written from.
proof fn lemma_reads_display_mode(s: ConfigModel, m: ConfigModel)
    requires
        written_plainly(m.display_mode),
    ensures
        apply_line(s, "display_mode = "@ + debug_written(m.display_mode)) == (ConfigModel { display_mode: m.display_mode, ..s }),
        !("display_mode = "@ + debug_written(m.display_mode)).contains('\n'),
        strip_cr("display_mode = "@ + debug_written(m.display_mode)) == "display_mode = "@ + debug_written(m.display_mode),
{
    reveal_strlit("display_mode");
    reveal_strlit(" = ");
    reveal_strlit("selected_port");
    reveal_strlit("baud_rate");
    reveal_strlit("data_bits");
    reveal_strlit("parity");
    reveal_strlit("stop_bits");
    assert("display_mode"@ != "selected_port"@) by {
        assert("display_mode"@.len() != "selected_port"@.len());
    }
    assert("display_mode"@ != "baud_rate"@) by {
        assert("display_mode"@.len() != "baud_rate"@.len());
    }
    assert("display_mode"@ != "data_bits"@) by {
        assert("display_mode"@.len() != "data_bits"@.len());
    }
    assert("display_mode"@ != "parity"@) by {
        assert("display_mode"@.len() != "parity"@.len());
    }
    assert("display_mode"@ != "stop_bits"@) by {
        assert("display_mode"@.len() != "stop_bits"@.len());
    }
    reveal_strlit("display_mode = ");
    let v = debug_written(m.display_mode);
    lemma_unquote_quote(m.display_mode);
    lemma_quote_single_line(m.display_mode);
    assert("display_mode = "@ + v =~= "display_mode"@ + " = "@ + v);
    lemma_concat_lacks("display_mode = "@, v, '\n');
    lemma_setting_line(s, "display_mode"@, v);
}

/// The `receive_encoding` line of the settings file reads back as the setting it was written from.
proof fn lemma_reads_receive_encoding(s: ConfigModel, m: ConfigModel)
    requires
        written_plainly(m.receive_encoding),
    ensures
        apply_line(s, "receive_encoding = "@ + debug_written(m.receive_encoding)) == (ConfigModel { receive_encoding: m.receive_encoding, ..s }),
        !("receive_encoding = "@ + debug_written(m.receive_encoding)).contains('\n'),
        strip_cr("receive_encoding = "@ + debug_written(m.receive_encoding)) == "receive_encoding = "@ + debug_written(m.receive_encoding),
{
    reveal_strlit("receive_encoding");
    reveal_strlit(" = ");
    reveal_strlit("selected_port");
    reveal_strlit("baud_rate");
    reveal_strlit("data_bits");
    reveal_strlit("parity");
    reveal_strlit("stop_bits");
    reveal_strlit("display_mode");
    assert("receive_encoding"@ != "selected_port"@) by {
        assert("receive_encoding"@.len() != "selected_port"@.len());
    }
    assert("receive_encoding"@ != "baud_rate"@) by {
        assert("receive_encoding"@.len() != "baud_rate"@.len());
    }
    assert("receive_encoding"@ != "data_bits"@) by {
        assert("receive_encoding"@.len() != "data_bits"@.len());
    }
    assert("receive_encoding"@ != "parity"@) by {
        assert("receive_encoding"@.len() != "parity"@.len());
    }
    assert("receive_encoding"@ != "stop_bits"@) by {
        assert("receive_encoding"@.len() != "stop_bits"@.len());
    }
    assert("receive_encoding"@ != "display_mode"@) by {
        assert("receive_encoding"@.len() != "display_mode"@.len());
    }
    reveal_strlit("receive_encoding = ");
    let v = debug_written(m.receive_encoding);
    lemma_unquote_quote(m.receive_encoding);
    lemma_quote_single_line(m.receive_encoding);
    assert("receive_encoding = "@ + v =~= "receive_encoding"@ + " = "@ + v);
    lemma_concat_lacks("receive_encoding = "@, v, '\n');
    lemma_setting_line(s, "receive_encoding"@, v);
}

/// The `should_auto_scroll` line of the settings file reads back as the setting it was written from.
proof fn lemma_reads_should_auto_scroll(s: ConfigModel, m: ConfigModel)
    ensures
        apply_line(s, "should_auto_scroll = "@ + bool_text(m.should_auto_scroll)) == (ConfigModel { should_auto_scroll: m.should_auto_scroll, ..s }),
        !("should_auto_scroll = "@ + bool_text(m.should_auto_scroll)).contains('\n'),
        strip_cr("should_auto_scroll = "@ + bool_text(m.should_auto_scroll)) == "should_auto_scroll = "@ + bool_text(m.should_auto_scroll),
{
    reveal_strlit("should_auto_scroll");
    reveal_strlit(" = ");
    reveal_strlit("selected_port");
    reveal_strlit("baud_rate");
    reveal_strlit("data_bits");
    reveal_strlit("parity");
    reveal_strlit("stop_bits");
    reveal_strlit("display_mode");
    reveal_strlit("receive_encoding");
    assert("should_auto_scroll"@ != "selected_port"@) by {
        assert("should_auto_scroll"@.len() != "selected_port"@.len());
    }
    assert("should_auto_scroll"@ != "baud_rate"@) by {
        assert("should_auto_scroll"@.len() != "baud_rate"@.len());
    }
    assert("should_auto_scroll"@ != "data_bits"@) by {
        assert("should_auto_scroll"@.len() != "data_bits"@.len());
    }
    assert("should_auto_scroll"@ != "parity"@) by {
        assert("should_auto_scroll"@.len() != "parity"@.len());
    }
    assert("should_auto_scroll"@ != "stop_bits"@) by {
        assert("should_auto_scroll"@.len() != "stop_bits"@.len());
    }
    assert("should_auto_scroll"@ != "display_mode"@) by {
        assert("should_auto_scroll"@.len() != "display_mode"@.len());
    }
    assert("should_auto_scroll"@ != "receive_encoding"@) by {
        assert("should_auto_scroll"@.len() != "receive_encoding"@.len());
    }
    reveal_strlit("should_auto_scroll = ");
    reveal_strlit("true");
    reveal_strlit("false");
    let v = bool_text(m.should_auto_scroll);
    assert("false"@ != "true"@) by {
        assert("false"@.len() != "true"@.len());
    }
    assert("should_auto_scroll = "@ + v =~= "should_auto_scroll"@ + " = "@ + v);
    lemma_concat_lacks("should_auto_scroll = "@, v, '\n');
    lemma_setting_line(s, "should_auto_scroll"@, v);
}

/// The `send_encoding` line of the settings file reads back as the setting it was written from.
proof fn lemma_reads_send_encoding(s: ConfigModel, m: ConfigModel)
    requires
        written_plainly(m.send_encoding),
    ensures
        apply_line(s, "send_encoding = "@ + debug_written(m.send_encoding)) == (ConfigModel { send_encoding: m.send_encoding, ..s }),
        !("send_encoding = "@ + debug_written(m.send_encoding)).contains('\n'),
        strip_cr("send_encoding = "@ + debug_written(m.send_encoding)) == "send_encoding = "@ + debug_written(m.send_encoding),
{
    reveal_strlit("send_encoding");
    reveal_strlit(" = ");
    reveal_strlit("selected_port");
    reveal_strlit("baud_rate");
    reveal_strlit("data_bits");
    reveal_strlit("parity");
    reveal_strlit("stop_bits");
    reveal_strlit("display_mode");
    reveal_strlit("receive_encoding");
    reveal_strlit("should_auto_scroll");
    assert("send_encoding"@ != "selected_port"@) by {
        assert("send_encoding"@[2] != "selected_port"@[2]);
    }
    assert("send_encoding"@ != "baud_rate"@) by {
        assert("send_encoding"@.len() != "baud_rate"@.len());
    }
    assert("send_encoding"@ != "data_bits"@) by {
        assert("send_encoding"@.len() != "data_bits"@.len());
    }
    assert("send_encoding"@ != "parity"@) by {
        assert("send_encoding"@.len() != "parity"@.len());
    }
    assert("send_encoding"@ != "stop_bits"@) by {
        assert("send_encoding"@.len() != "stop_bits"@.len());
    }
    assert("send_encoding"@ != "display_mode"@) by {
        assert("send_encoding"@.len() != "display_mode"@.len());
    }
    assert("send_encoding"@ != "receive_encoding"@) by {
        assert("send_encoding"@.len() != "receive_encoding"@.len());
    }
    assert("send_encoding"@ != "should_auto_scroll"@) by {
        assert("send_encoding"@.len() != "should_auto_scroll"@.len());
    }
    reveal_strlit("send_encoding = ");
    let v = debug_written(m.send_encoding);
    lemma_unquote_quote(m.send_encoding);
    lemma_quote_single_line(m.send_encoding);
    assert("send_encoding = "@ + v =~= "send_encoding"@ + " = "@ + v);
    lemma_concat_lacks("send_encoding = "@, v, '\n');
    lemma_setting_line(s, "send_encoding"@, v);
}

/// The `send_newline` line of the settings file reads back as the setting it was written from.
proof fn lemma_reads_send_newline(s: ConfigModel, m: ConfigModel)
    ensures
        apply_line(s, "send_newline = "@ + bool_text(m.send_newline)) == (ConfigModel { send_newline: m.send_newline, ..s }),
        !("send_newline = "@ + bool_text(m.send_newline)).contains('\n'),
        strip_cr("send_newline = "@ + bool_text(m.send_newline)) == "send_newline = "@ + bool_text(m.send_newline),
{
    reveal_strlit("send_newline");
    reveal_strlit(" = ");
    reveal_strlit("selected_port");
    reveal_strlit("baud_rate");
    reveal_strlit("data_bits");
    reveal_strlit("parity");
    reveal_strlit("stop_bits");
    reveal_strlit("display_mode");
    reveal_strlit("receive_encoding");
    reveal_strlit("should_auto_scroll");
    reveal_strlit("send_encoding");
    assert("send_newline"@ != "selected_port"@) by {
        assert("send_newline"@.len() != "selected_port"@.len());
    }
    assert("send_newline"@ != "baud_rate"@) by {
        assert("send_newline"@.len() != "baud_rate"@.len());
    }
    assert("send_newline"@ != "data_bits"@) by {
        assert("send_newline"@.len() != "data_bits"@.len());
    }
    assert("send_newline"@ != "parity"@) by {
        assert("send_newline"@.len() != "parity"@.len());
    }
    assert("send_newline"@ != "stop_bits"@) by {
        assert("send_newline"@.len() != "stop_bits"@.len());
    }
    assert("send_newline"@ != "display_mode"@) by {
        assert("send_newline"@[0] != "display_mode"@[0]);
    }
    assert("send_newline"@ != "receive_encoding"@) by {
        assert("send_newline"@.len() != "receive_encoding"@.len());
    }
    assert("send_newline"@ != "should_auto_scroll"@) by {
        assert("send_newline"@.len() != "should_auto_scroll"@.len());
    }
    assert("send_newline"@ != "send_encoding"@) by {
        assert("send_newline"@.len() != "send_encoding"@.len());
    }
    reveal_strlit("send_newline = ");
    reveal_strlit("true");
    reveal_strlit("false");
    let v = bool_text(m.send_newline);
    assert("false"@ != "true"@) by {
        assert("false"@.len() != "true"@.len());
    }
    assert("send_newline = "@ + v =~= "send_newline"@ + " = "@ + v);
    lemma_concat_lacks("send_newline = "@, v, '\n');
    lemma_setting_line(s, "send_newline"@, v);
}

/// The `is_dark_mode` line of the settings file reads back as the setting it was written from.
proof fn lemma_reads_is_dark_mode(s: ConfigModel, m: ConfigModel)
    ensures
        apply_line(s, "is_dark_mode = "@ + bool_text(m.is_dark_mode)) == (ConfigModel { is_dark_mode: m.is_dark_mode, ..s }),
        !("is_dark_mode = "@ + bool_text(m.is_dark_mode)).contains('\n'),
        strip_cr("is_dark_mode = "@ + bool_text(m.is_dark_mode)) == "is_dark_mode = "@ + bool_text(m.is_dark_mode),
{
    reveal_strlit("is_dark_mode");
    reveal_strlit(" = ");
    reveal_strlit("selected_port");
    reveal_strlit("baud_rate");
    reveal_strlit("data_bits");
    reveal_strlit("parity");
    reveal_strlit("stop_bits");
    reveal_strlit("display_mode");
    reveal_strlit("receive_encoding");
    reveal_strlit("should_auto_scroll");
    reveal_strlit("send_encoding");
    reveal_strlit("send_newline");
    assert("is_dark_mode"@ != "selected_port"@) by {
        assert("is_dark_mode"@.len() != "selected_port"@.len());
    }
    assert("is_dark_mode"@ != "baud_rate"@) by {
        assert("is_dark_mode"@.len() != "baud_rate"@.len());
    }
    assert("is_dark_mode"@ != "data_bits"@) by {
        assert("is_dark_mode"@.len() != "data_bits"@.len());
    }
    assert("is_dark_mode"@ != "parity"@) by {
        assert("is_dark_mode"@.len() != "parity"@.len());
    }
    assert("is_dark_mode"@ != "stop_bits"@) by {
        assert("is_dark_mode"@.len() != "stop_bits"@.len());
    }
    assert("is_dark_mode"@ != "display_mode"@) by {
        assert("is_dark_mode"@[0] != "display_mode"@[0]);
    }
    assert("is_dark_mode"@ != "receive_encoding"@) by {
        assert("is_dark_mode"@.len() != "receive_encoding"@.len());
    }
    assert("is_dark_mode"@ != "should_auto_scroll"@) by {
        assert("is_dark_mode"@.len() != "should_auto_scroll"@.len());
    }
    assert("is_dark_mode"@ != "send_encoding"@) by {
        assert("is_dark_mode"@.len() != "send_encoding"@.len());
    }
    assert("is_dark_mode"@ != "send_newline"@) by {
        assert("is_dark_mode"@[0] != "send_newline"@[0]);
    }
    reveal_strlit("is_dark_mode = ");
    reveal_strlit("true");
    reveal_strlit("false");
    let v = bool_text(m.is_dark_mode);
    assert("false"@ != "true"@) by {
        assert("false"@.len() != "true"@.len());
    }
    assert("is_dark_mode = "@ + v =~= "is_dark_mode"@ + " = "@ + v);
    lemma_concat_lacks("is_dark_mode = "@, v, '\n');
    lemma_setting_line(s, "is_dark_mode"@, v);
}

/// The `show_settings_panel` line of the settings file reads back as the setting it was written from.
proof fn lemma_reads_show_settings_panel(s: ConfigModel, m: ConfigModel)
    ensures
        apply_line(s, "show_settings_panel = "@ + bool_text(m.show_settings_panel)) == (ConfigModel { show_settings_panel: m.show_settings_panel, ..s }),
        !("show_settings_panel = "@ + bool_text(m.show_settings_panel)).contains('\n'),
        strip_cr("show_settings_panel = "@ + bool_text(m.show_settings_panel)) == "show_settings_panel = "@ + bool_text(m.show_settings_panel),
{
    reveal_strlit("show_settings_panel");
    reveal_strlit(" = ");
    reveal_strlit("selected_port");
    reveal_strlit("baud_rate");
    reveal_strlit("data_bits");
    reveal_strlit("parity");
    reveal_strlit("stop_bits");
    reveal_strlit("display_mode");
    reveal_strlit("receive_encoding");
    reveal_strlit("should_auto_scroll");
    reveal_strlit("send_encoding");
    reveal_strlit("send_newline");
    reveal_strlit("is_dark_mode");
    assert("show_settings_panel"@ != "selected_port"@) by {
        assert("show_settings_panel"@.len() != "selected_port"@.len());
    }
    assert("show_settings_panel"@ != "baud_rate"@) by {
        assert("show_settings_panel"@.len() != "baud_rate"@.len());
    }
    assert("show_settings_panel"@ != "data_bits"@) by {
        assert("show_settings_panel"@.len() != "data_bits"@.len());
    }
    assert("show_settings_panel"@ != "parity"@) by {
        assert("show_settings_panel"@.len() != "parity"@.len());
    }
    assert("show_settings_panel"@ != "stop_bits"@) by {
        assert("show_settings_panel"@.len() != "stop_bits"@.len());
    }
    assert("show_settings_panel"@ != "display_mode"@) by {
        assert("show_settings_panel"@.len() != "display_mode"@.len());
    }
    assert("show_settings_panel"@ != "receive_encoding"@) by {
        assert("show_settings_panel"@.len() != "receive_encoding"@.len());
    }
    assert("show_settings_panel"@ != "should_auto_scroll"@) by {
        assert("show_settings_panel"@.len() != "should_auto_scroll"@.len());
    }
    assert("show_settings_panel"@ != "send_encoding"@) by {
        assert("show_settings_panel"@.len() != "send_encoding"@.len());
    }
    assert("show_settings_panel"@ != "send_newline"@) by {
        assert("show_settings_panel"@.len() != "send_newline"@.len());
    }
    assert("show_settings_panel"@ != "is_dark_mode"@) by {
        assert("show_settings_panel"@.len() != "is_dark_mode"@.len());
    }
    reveal_strlit("show_settings_panel = ");
    reveal_strlit("true");
    reveal_strlit("false");
    let v = bool_text(m.show_settings_panel);
    assert("false"@ != "true"@) by {
        assert("false"@.len() != "true"@.len());
    }
    assert("show_settings_panel = "@ + v =~= "show_settings_panel"@ + " = "@ + v);
    lemma_concat_lacks("show_settings_panel = "@, v, '\n');
    lemma_setting_line(s, "show_settings_panel"@, v);
}

/// The `use_cloud_communication` line of the settings file reads back as the setting it was written from.
proof fn lemma_reads_use_cloud_communication(s: ConfigModel, m: ConfigModel)
    ensures
        apply_line(s, "use_cloud_communication = "@ + bool_text(m.use_cloud_communication)) == (ConfigModel { use_cloud_communication: m.use_cloud_communication, ..s }),
        !("use_cloud_communication = "@ + bool_text(m.use_cloud_communication)).contains('\n'),
        strip_cr("use_cloud_communication = "@ + bool_text(m.use_cloud_communication)) == "use_cloud_communication = "@ + bool_text(m.use_cloud_communication),
{
    reveal_strlit("use_cloud_communication");
    reveal_strlit(" = ");
    reveal_strlit("selected_port");
    reveal_strlit("baud_rate");
    reveal_strlit("data_bits");
    reveal_strlit("parity");
    reveal_strlit("stop_bits");
    reveal_strlit("display_mode");
    reveal_strlit("receive_encoding");
    reveal_strlit("should_auto_scroll");
    reveal_strlit("send_encoding");
    reveal_strlit("send_newline");
    reveal_strlit("is_dark_mode");
    reveal_strlit("show_settings_panel");
    assert("use_cloud_communication"@ != "selected_port"@) by {
        assert("use_cloud_communication"@.len() != "selected_port"@.len());
    }
    assert("use_cloud_communication"@ != "baud_rate"@) by {
        assert("use_cloud_communication"@.len() != "baud_rate"@.len());
    }
    assert("use_cloud_communication"@ != "data_bits"@) by {
        assert("use_cloud_communication"@.len() != "data_bits"@.len());
    }
    assert("use_cloud_communication"@ != "parity"@) by {
        assert("use_cloud_communication"@.len() != "parity"@.len());
    }
    assert("use_cloud_communication"@ != "stop_bits"@) by {
        assert("use_cloud_communication"@.len() != "stop_bits"@.len());
    }
    assert("use_cloud_communication"@ != "display_mode"@) by {
        assert("use_cloud_communication"@.len() != "display_mode"@.len());
    }
    assert("use_cloud_communication"@ != "receive_encoding"@) by {
        assert("use_cloud_communication"@.len() != "receive_encoding"@.len());
    }
    assert("use_cloud_communication"@ != "should_auto_scroll"@) by {
        assert("use_cloud_communication"@.len() != "should_auto_scroll"@.len());
    }
    assert("use_cloud_communication"@ != "send_encoding"@) by {
        assert("use_cloud_communication"@.len() != "send_encoding"@.len());
    }
    assert("use_cloud_communication"@ != "send_newline"@) by {
        assert("use_cloud_communication"@.len() != "send_newline"@.len());
    }
    assert("use_cloud_communication"@ != "is_dark_mode"@) by {
        assert("use_cloud_communication"@.len() != "is_dark_mode"@.len());
    }
    assert("use_cloud_communication"@ != "show_settings_panel"@) by {
        assert("use_cloud_communication"@.len() != "show_settings_panel"@.len());
    }
    reveal_strlit("use_cloud_communication = ");
    reveal_strlit("true");
    reveal_strlit("false");
    let v = bool_text(m.use_cloud_communication);
    assert("false"@ != "true"@) by {
        assert("false"@.len() != "true"@.len());
    }
    assert("use_cloud_communication = "@ + v =~= "use_cloud_communication"@ + " = "@ + v);
    lemma_concat_lacks("use_cloud_communication = "@, v, '\n');
    lemma_setting_line(s, "use_cloud_communication"@, v);
}

/// The `cloud_service` line of the settings file reads back as the setting it was written from.
proof fn lemma_reads_cloud_service(s: ConfigModel, m: ConfigModel)
    requires
        written_plainly(m.cloud_service),
    ensures
        apply_line(s, "cloud_service = "@ + debug_written(m.cloud_service)) == (ConfigModel { cloud_service: m.cloud_service, ..s }),
        !("cloud_service = "@ + debug_written(m.cloud_service)).contains('\n'),
        strip_cr("cloud_service = "@ + debug_written(m.cloud_service)) == "cloud_service = "@ + debug_written(m.cloud_service),
{
    reveal_strlit("cloud_service");
    reveal_strlit(" = ");
    reveal_strlit("selected_port");
    reveal_strlit("baud_rate");
    reveal_strlit("data_bits");
    reveal_strlit("parity");
    reveal_strlit("stop_bits");
    reveal_strlit("display_mode");
    reveal_strlit("receive_encoding");
    reveal_strlit("should_auto_scroll");
    reveal_strlit("send_encoding");
    reveal_strlit("send_newline");
    reveal_strlit("is_dark_mode");
    reveal_strlit("show_settings_panel");
    reveal_strlit("use_cloud_communication");
    assert("cloud_service"@ != "selected_port"@) by {
        assert("cloud_service"@[0] != "selected_port"@[0]);
    }
    assert("cloud_service"@ != "baud_rate"@) by {
        assert("cloud_service"@.len() != "baud_rate"@.len());
    }
    assert("cloud_service"@ != "data_bits"@) by {
        assert("cloud_service"@.len() != "data_bits"@.len());
    }
    assert("cloud_service"@ != "parity"@) by {
        assert("cloud_service"@.len() != "parity"@.len());
    }
    assert("cloud_service"@ != "stop_bits"@) by {
        assert("cloud_service"@.len() != "stop_bits"@.len());
    }
    assert("cloud_service"@ != "display_mode"@) by {
        assert("cloud_service"@.len() != "display_mode"@.len());
    }
    assert("cloud_service"@ != "receive_encoding"@) by {
        assert("cloud_service"@.len() != "receive_encoding"@.len());
    }
    assert("cloud_service"@ != "should_auto_scroll"@) by {
        assert("cloud_service"@.len() != "should_auto_scroll"@.len());
    }
    assert("cloud_service"@ != "send_encoding"@) by {
        assert("cloud_service"@[0] != "send_encoding"@[0]);
    }
    assert("cloud_service"@ != "send_newline"@) by {
        assert("cloud_service"@.len() != "send_newline"@.len());
    }
    assert("cloud_service"@ != "is_dark_mode"@) by {
        assert("cloud_service"@.len() != "is_dark_mode"@.len());
    }
    assert("cloud_service"@ != "show_settings_panel"@) by {
        assert("cloud_service"@.len() != "show_settings_panel"@.len());
    }
    assert("cloud_service"@ != "use_cloud_communication"@) by {
        assert("cloud_service"@.len() != "use_cloud_communication"@.len());
    }
    reveal_strlit("cloud_service = ");
    let v = debug_written(m.cloud_service);
    lemma_unquote_quote(m.cloud_service);
    lemma_quote_single_line(m.cloud_service);
    assert("cloud_service = "@ + v =~= "cloud_service"@ + " = "@ + v);
    lemma_concat_lacks("cloud_service = "@, v, '\n');
    lemma_setting_line(s, "cloud_service"@, v);
}

/// The `cloud_protocol` line of the settings file reads back as the setting it was written from.
proof fn lemma_reads_cloud_protocol(s: ConfigModel, m: ConfigModel)
    requires
        written_plainly(m.cloud_protocol),
    ensures
        apply_line(s, "cloud_protocol = "@ + debug_written(m.cloud_protocol)) == (ConfigModel { cloud_protocol: m.cloud_protocol, ..s }),
        !("cloud_protocol = "@ + debug_written(m.cloud_protocol)).contains('\n'),
        strip_cr("cloud_protocol = "@ + debug_written(m.cloud_protocol)) == "cloud_protocol = "@ + debug_written(m.cloud_protocol),
{
    reveal_strlit("cloud_protocol");
    reveal_strlit(" = ");
    reveal_strlit("selected_port");
    reveal_strlit("baud_rate");
    reveal_strlit("data_bits");
    reveal_strlit("parity");
    reveal_strlit("stop_bits");
    reveal_strlit("display_mode");
    reveal_strlit("receive_encoding");
    reveal_strlit("should_auto_scroll");
    reveal_strlit("send_encoding");
    reveal_strlit("send_newline");
    reveal_strlit("is_dark_mode");
    reveal_strlit("show_settings_panel");
    reveal_strlit("use_cloud_communication");
    reveal_strlit("cloud_service");
    assert("cloud_protocol"@ != "selected_port"@) by {
        assert("cloud_protocol"@.len() != "selected_port"@.len());
    }
    assert("cloud_protocol"@ != "baud_rate"@) by {
        assert("cloud_protocol"@.len() != "baud_rate"@.len());
    }
    assert("cloud_protocol"@ != "data_bits"@) by {
        assert("cloud_protocol"@.len() != "data_bits"@.len());
    }
    assert("cloud_protocol"@ != "parity"@) by {
        assert("cloud_protocol"@.len() != "parity"@.len());
    }
    assert("cloud_protocol"@ != "stop_bits"@) by {
        assert("cloud_protocol"@.len() != "stop_bits"@.len());
    }
    assert("cloud_protocol"@ != "display_mode"@) by {
        assert("cloud_protocol"@.len() != "display_mode"@.len());
    }
    assert("cloud_protocol"@ != "receive_encoding"@) by {
        assert("cloud_protocol"@.len() != "receive_encoding"@.len());
    }
    assert("cloud_protocol"@ != "should_auto_scroll"@) by {
        assert("cloud_protocol"@.len() != "should_auto_scroll"@.len());
    }
    assert("cloud_protocol"@ != "send_encoding"@) by {
        assert("cloud_protocol"@.len() != "send_encoding"@.len());
    }
    assert("cloud_protocol"@ != "send_newline"@) by {
        assert("cloud_protocol"@.len() != "send_newline"@.len());
    }
    assert("cloud_protocol"@ != "is_dark_mode"@) by {
        assert("cloud_protocol"@.len() != "is_dark_mode"@.len());
    }
    assert("cloud_protocol"@ != "show_settings_panel"@) by {
        assert("cloud_protocol"@.len() != "show_settings_panel"@.len());
    }
    assert("cloud_protocol"@ != "use_cloud_communication"@) by {
        assert("cloud_protocol"@.len() != "use_cloud_communication"@.len());
    }
    assert("cloud_protocol"@ != "cloud_service"@) by {
        assert("cloud_protocol"@.len() != "cloud_service"@.len());
    }
    reveal_strlit("cloud_protocol = ");
    let v = debug_written(m.cloud_protocol);
    lemma_unquote_quote(m.cloud_protocol);
    lemma_quote_single_line(m.cloud_protocol);
    assert("cloud_protocol = "@ + v =~= "cloud_protocol"@ + " = "@ + v);
    lemma_concat_lacks("cloud_protocol = "@, v, '\n');
    lemma_setting_line(s, "cloud_protocol"@, v);
}

/// The `cloud_uid` line of the settings file reads back as the setting it was written from.
proof fn lemma_reads_cloud_uid(s: ConfigModel, m: ConfigModel)
    requires
        written_plainly(m.cloud_uid),
    ensures
        apply_line(s, "cloud_uid = "@ + debug_written(m.cloud_uid)) == (ConfigModel { cloud_uid: m.cloud_uid, ..s }),
        !("cloud_uid = "@ + debug_written(m.cloud_uid)).contains('\n'),
        strip_cr("cloud_uid = "@ + debug_written(m.cloud_uid)) == "cloud_uid = "@ + debug_written(m.cloud_uid),
{
    reveal_strlit("cloud_uid");
    reveal_strlit(" = ");
    reveal_strlit("selected_port");
    reveal_strlit("baud_rate");
    reveal_strlit("data_bits");
    reveal_strlit("parity");
    reveal_strlit("stop_bits");
    reveal_strlit("display_mode");
    reveal_strlit("receive_encoding");
    reveal_strlit("should_auto_scroll");
    reveal_strlit("send_encoding");
    reveal_strlit("send_newline");
    reveal_strlit("is_dark_mode");
    reveal_strlit("show_settings_panel");
    reveal_strlit("use_cloud_communication");
    reveal_strlit("cloud_service");
    reveal_strlit("cloud_protocol");
    assert("cloud_uid"@ != "selected_port"@) by {
        assert("cloud_uid"@.len() != "selected_port"@.len());
    }
    assert("cloud_uid"@ != "baud_rate"@) by {
        assert("cloud_uid"@[0] != "baud_rate"@[0]);
    }
    assert("cloud_uid"@ != "data_bits"@) by {
        assert("cloud_uid"@[0] != "data_bits"@[0]);
    }
    assert("cloud_uid"@ != "parity"@) by {
        assert("cloud_uid"@.len() != "parity"@.len());
    }
    assert("cloud_uid"@ != "stop_bits"@) by {
        assert("cloud_uid"@[0] != "stop_bits"@[0]);
    }
    assert("cloud_uid"@ != "display_mode"@) by {
        assert("cloud_uid"@.len() != "display_mode"@.len());
    }
    assert("cloud_uid"@ != "receive_encoding"@) by {
        assert("cloud_uid"@.len() != "receive_encoding"@.len());
    }
    assert("cloud_uid"@ != "should_auto_scroll"@) by {
        assert("cloud_uid"@.len() != "should_auto_scroll"@.len());
    }
    assert("cloud_uid"@ != "send_encoding"@) by {
        assert("cloud_uid"@.len() != "send_encoding"@.len());
    }
    assert("cloud_uid"@ != "send_newline"@) by {
        assert("cloud_uid"@.len() != "send_newline"@.len());
    }
    assert("cloud_uid"@ != "is_dark_mode"@) by {
        assert("cloud_uid"@.len() != "is_dark_mode"@.len());
    }
    assert("cloud_uid"@ != "show_settings_panel"@) by {
        assert("cloud_uid"@.len() != "show_settings_panel"@.len());
    }
    assert("cloud_uid"@ != "use_cloud_communication"@) by {
        assert("cloud_uid"@.len() != "use_cloud_communication"@.len());
    }
    assert("cloud_uid"@ != "cloud_service"@) by {
        assert("cloud_uid"@.len() != "cloud_service"@.len());
    }
    assert("cloud_uid"@ != "cloud_protocol"@) by {
        assert("cloud_uid"@.len() != "cloud_protocol"@.len());
    }
    reveal_strlit("cloud_uid = ");
    let v = debug_written(m.cloud_uid);
    lemma_unquote_quote(m.cloud_uid);
    lemma_quote_single_line(m.cloud_uid);
    assert("cloud_uid = "@ + v =~= "cloud_uid"@ + " = "@ + v);
    lemma_concat_lacks("cloud_uid = "@, v, '\n');
    lemma_setting_line(s, "cloud_uid"@, v);
}

/// The `cloud_subscribe_topics` line of the settings file reads back as the setting it was written from.
proof fn lemma_reads_cloud_subscribe_topics(s: ConfigModel, m: ConfigModel)
    requires
        topics_round_trip(m.cloud_subscribe_topics),
    ensures
        apply_line(s, "cloud_subscribe_topics = "@ + debug_written(crate::text::join(m.cloud_subscribe_topics, ", "@))) == (ConfigModel { cloud_subscribe_topics: m.cloud_subscribe_topics, ..s }),
        !("cloud_subscribe_topics = "@ + debug_written(crate::text::join(m.cloud_subscribe_topics, ", "@))).contains('\n'),
        strip_cr("cloud_subscribe_topics = "@ + debug_written(crate::text::join(m.cloud_subscribe_topics, ", "@))) == "cloud_subscribe_topics = "@ + debug_written(crate::text::join(m.cloud_subscribe_topics, ", "@)),
{
    reveal_strlit("cloud_subscribe_topics");
    reveal_strlit(" = ");
    reveal_strlit("selected_port");
    reveal_strlit("baud_rate");
    reveal_strlit("data_bits");
    reveal_strlit("parity");
    reveal_strlit("stop_bits");
    reveal_strlit("display_mode");
    reveal_strlit("receive_encoding");
    reveal_strlit("should_auto_scroll");
    reveal_strlit("send_encoding");
    reveal_strlit("send_newline");
    reveal_strlit("is_dark_mode");
    reveal_strlit("show_settings_panel");
    reveal_strlit("use_cloud_communication");
    reveal_strlit("cloud_service");
    reveal_strlit("cloud_protocol");
    reveal_strlit("cloud_uid");
    assert("cloud_subscribe_topics"@ != "selected_port"@) by {
        assert("cloud_subscribe_topics"@.len() != "selected_port"@.len());
    }
    assert("cloud_subscribe_topics"@ != "baud_rate"@) by {
        assert("cloud_subscribe_topics"@.len() != "baud_rate"@.len());
    }
    assert("cloud_subscribe_topics"@ != "data_bits"@) by {
        assert("cloud_subscribe_topics"@.len() != "data_bits"@.len());
    }
    assert("cloud_subscribe_topics"@ != "parity"@) by {
        assert("cloud_subscribe_topics"@.len() != "parity"@.len());
    }
    assert("cloud_subscribe_topics"@ != "stop_bits"@) by {
        assert("cloud_subscribe_topics"@.len() != "stop_bits"@.len());
    }
    assert("cloud_subscribe_topics"@ != "display_mode"@) by {
        assert("cloud_subscribe_topics"@.len() != "display_mode"@.len());
    }
    assert("cloud_subscribe_topics"@ != "receive_encoding"@) by {
        assert("cloud_subscribe_topics"@.len() != "receive_encoding"@.len());
    }
    assert("cloud_subscribe_topics"@ != "should_auto_scroll"@) by {
        assert("cloud_subscribe_topics"@.len() != "should_auto_scroll"@.len());
    }
    assert("cloud_subscribe_topics"@ != "send_encoding"@) by {
        assert("cloud_subscribe_topics"@.len() != "send_encoding"@.len());
    }
    assert("cloud_subscribe_topics"@ != "send_newline"@) by {
        assert("cloud_subscribe_topics"@.len() != "send_newline"@.len());
    }
    assert("cloud_subscribe_topics"@ != "is_dark_mode"@) by {
        assert("cloud_subscribe_topics"@.len() != "is_dark_mode"@.len());
    }
    assert("cloud_subscribe_topics"@ != "show_settings_panel"@) by {
        assert("cloud_subscribe_topics"@.len() != "show_settings_panel"@.len());
    }
    assert("cloud_subscribe_topics"@ != "use_cloud_communication"@) by {
        assert("cloud_subscribe_topics"@.len() != "use_cloud_communication"@.len());
    }
    assert("cloud_subscribe_topics"@ != "cloud_service"@) by {
        assert("cloud_subscribe_topics"@.len() != "cloud_service"@.len());
    }
    assert("cloud_subscribe_topics"@ != "cloud_protocol"@) by {
        assert("cloud_subscribe_topics"@.len() != "cloud_protocol"@.len());
    }
    assert("cloud_subscribe_topics"@ != "cloud_uid"@) by {
        assert("cloud_subscribe_topics"@.len() != "cloud_uid"@.len());
    }
    reveal_strlit("cloud_subscribe_topics = ");
    let j = crate::text::join(m.cloud_subscribe_topics, ", "@);
    let v = debug_written(j);
    lemma_unquote_quote(j);
    lemma_quote_single_line(j);
    lemma_comma_join_round_trip(m.cloud_subscribe_topics);
    assert("cloud_subscribe_topics = "@ + v =~= "cloud_subscribe_topics"@ + " = "@ + v);
    lemma_concat_lacks("cloud_subscribe_topics = "@, v, '\n');
    lemma_setting_line(s, "cloud_subscribe_topics"@, v);
}

/// The `cloud_publish_topics` line of the settings file reads back as the setting it was written from.
proof fn lemma_reads_cloud_publish_topics(s: ConfigModel, m: ConfigModel)
    requires
        topics_round_trip(m.cloud_publish_topics),
    ensures
        apply_line(s, "cloud_publish_topics = "@ + debug_written(crate::text::join(m.cloud_publish_topics, ", "@))) == (ConfigModel { cloud_publish_topics: m.cloud_publish_topics, ..s }),
        !("cloud_publish_topics = "@ + debug_written(crate::text::join(m.cloud_publish_topics, ", "@))).contains('\n'),
        strip_cr("cloud_publish_topics = "@ + debug_written(crate::text::join(m.cloud_publish_topics, ", "@))) == "cloud_publish_topics = "@ + debug_written(crate::text::join(m.cloud_publish_topics, ", "@)),
{
    reveal_strlit("cloud_publish_topics");
    reveal_strlit(" = ");
    reveal_strlit("selected_port");
    reveal_strlit("baud_rate");
    reveal_strlit("data_bits");
    reveal_strlit("parity");
    reveal_strlit("stop_bits");
    reveal_strlit("display_mode");
    reveal_strlit("receive_encoding");
    reveal_strlit("should_auto_scroll");
    reveal_strlit("send_encoding");
    reveal_strlit("send_newline");
    reveal_strlit("is_dark_mode");
    reveal_strlit("show_settings_panel");
    reveal_strlit("use_cloud_communication");
    reveal_strlit("cloud_service");
    reveal_strlit("cloud_protocol");
    reveal_strlit("cloud_uid");
    reveal_strlit("cloud_subscribe_topics");
    assert("cloud_publish_topics"@ != "selected_port"@) by {
        assert("cloud_publish_topics"@.len() != "selected_port"@.len());
    }
    assert("cloud_publish_topics"@ != "baud_rate"@) by {
        assert("cloud_publish_topics"@.len() != "baud_rate"@.len());
    }
    assert("cloud_publish_topics"@ != "data_bits"@) by {
        assert("cloud_publish_topics"@.len() != "data_bits"@.len());
    }
    assert("cloud_publish_topics"@ != "parity"@) by {
        assert("cloud_publish_topics"@.len() != "parity"@.len());
    }
    assert("cloud_publish_topics"@ != "stop_bits"@) by {
        assert("cloud_publish_topics"@.len() != "stop_bits"@.len());
    }
    assert("cloud_publish_topics"@ != "display_mode"@) by {
        assert("cloud_publish_topics"@.len() != "display_mode"@.len());
    }
    assert("cloud_publish_topics"@ != "receive_encoding"@) by {
        assert("cloud_publish_topics"@.len() != "receive_encoding"@.len());
    }
    assert("cloud_publish_topics"@ != "should_auto_scroll"@) by {
        assert("cloud_publish_topics"@.len() != "should_auto_scroll"@.len());
    }
    assert("cloud_publish_topics"@ != "send_encoding"@) by {
        assert("cloud_publish_topics"@.len() != "send_encoding"@.len());
    }
    assert("cloud_publish_topics"@ != "send_newline"@) by {
        assert("cloud_publish_topics"@.len() != "send_newline"@.len());
    }
    assert("cloud_publish_topics"@ != "is_dark_mode"@) by {
        assert("cloud_publish_topics"@.len() != "is_dark_mode"@.len());
    }
    assert("cloud_publish_topics"@ != "show_settings_panel"@) by {
        assert("cloud_publish_topics"@.len() != "show_settings_panel"@.len());
    }
    assert("cloud_publish_topics"@ != "use_cloud_communication"@) by {
        assert("cloud_publish_topics"@.len() != "use_cloud_communication"@.len());
    }
    assert("cloud_publish_topics"@ != "cloud_service"@) by {
        assert("cloud_publish_topics"@.len() != "cloud_service"@.len());
    }
    assert("cloud_publish_topics"@ != "cloud_protocol"@) by {
        assert("cloud_publish_topics"@.len() != "cloud_protocol"@.len());
    }
    assert("cloud_publish_topics"@ != "cloud_uid"@) by {
        assert("cloud_publish_topics"@.len() != "cloud_uid"@.len());
    }
    assert("cloud_publish_topics"@ != "cloud_subscribe_topics"@) by {
        assert("cloud_publish_topics"@.len() != "cloud_subscribe_topics"@.len());
    }
    reveal_strlit("cloud_publish_topics = ");
    let j = crate::text::join(m.cloud_publish_topics, ", "@);
    let v = debug_written(j);
    lemma_unquote_quote(j);
    lemma_quote_single_line(j);
    lemma_comma_join_round_trip(m.cloud_publish_topics);
    assert("cloud_publish_topics = "@ + v =~= "cloud_publish_topics"@ + " = "@ + v);
    lemma_concat_lacks("cloud_publish_topics = "@, v, '\n');
    lemma_setting_line(s, "cloud_publish_topics"@, v);
}

/// The `show_cloud_debug_info` line of the settings file reads back as the setting it was written from.
proof fn lemma_reads_show_cloud_debug_info(s: ConfigModel, m: ConfigModel)
    ensures
        apply_line(s, "show_cloud_debug_info = "@ + bool_text(m.show_cloud_debug_info)) == (ConfigModel { show_cloud_debug_info: m.show_cloud_debug_info, ..s }),
        !("show_cloud_debug_info = "@ + bool_text(m.show_cloud_debug_info)).contains('\n'),
        strip_cr("show_cloud_debug_info = "@ + bool_text(m.show_cloud_debug_info)) == "show_cloud_debug_info = "@ + bool_text(m.show_cloud_debug_info),
{
    reveal_strlit("show_cloud_debug_info");
    reveal_strlit(" = ");
    reveal_strlit("selected_port");
    reveal_strlit("baud_rate");
    reveal_strlit("data_bits");
    reveal_strlit("parity");
    reveal_strlit("stop_bits");
    reveal_strlit("display_mode");
    reveal_strlit("receive_encoding");
    reveal_strlit("should_auto_scroll");
    reveal_strlit("send_encoding");
    reveal_strlit("send_newline");
    reveal_strlit("is_dark_mode");
    reveal_strlit("show_settings_panel");
    reveal_strlit("use_cloud_communication");
    reveal_strlit("cloud_service");
    reveal_strlit("cloud_protocol");
    reveal_strlit("cloud_uid");
    reveal_strlit("cloud_subscribe_topics");
    reveal_strlit("cloud_publish_topics");
    assert("show_cloud_debug_info"@ != "selected_port"@) by {
        assert("show_cloud_debug_info"@.len() != "selected_port"@.len());
    }
    assert("show_cloud_debug_info"@ != "baud_rate"@) by {
        assert("show_cloud_debug_info"@.len() != "baud_rate"@.len());
    }
    assert("show_cloud_debug_info"@ != "data_bits"@) by {
        assert("show_cloud_debug_info"@.len() != "data_bits"@.len());
    }
    assert("show_cloud_debug_info"@ != "parity"@) by {
        assert("show_cloud_debug_info"@.len() != "parity"@.len());
    }
    assert("show_cloud_debug_info"@ != "stop_bits"@) by {
        assert("show_cloud_debug_info"@.len() != "stop_bits"@.len());
    }
    assert("show_cloud_debug_info"@ != "display_mode"@) by {
        assert("show_cloud_debug_info"@.len() != "display_mode"@.len());
    }
    assert("show_cloud_debug_info"@ != "receive_encoding"@) by {
        assert("show_cloud_debug_info"@.len() != "receive_encoding"@.len());
    }
    assert("show_cloud_debug_info"@ != "should_auto_scroll"@) by {
        assert("show_cloud_debug_info"@.len() != "should_auto_scroll"@.len());
    }
    assert("show_cloud_debug_info"@ != "send_encoding"@) by {
        assert("show_cloud_debug_info"@.len() != "send_encoding"@.len());
    }
    assert("show_cloud_debug_info"@ != "send_newline"@) by {
        assert("show_cloud_debug_info"@.len() != "send_newline"@.len());
    }
    assert("show_cloud_debug_info"@ != "is_dark_mode"@) by {
        assert("show_cloud_debug_info"@.len() != "is_dark_mode"@.len());
    }
    assert("show_cloud_debug_info"@ != "show_settings_panel"@) by {
        assert("show_cloud_debug_info"@.len() != "show_settings_panel"@.len());
    }
    assert("show_cloud_debug_info"@ != "use_cloud_communication"@) by {
        assert("show_cloud_debug_info"@.len() != "use_cloud_communication"@.len());
    }
    assert("show_cloud_debug_info"@ != "cloud_service"@) by {
        assert("show_cloud_debug_info"@.len() != "cloud_service"@.len());
    }
    assert("show_cloud_debug_info"@ != "cloud_protocol"@) by {
        assert("show_cloud_debug_info"@.len() != "cloud_protocol"@.len());
    }
    assert("show_cloud_debug_info"@ != "cloud_uid"@) by {
        assert("show_cloud_debug_info"@.len() != "cloud_uid"@.len());
    }
    assert("show_cloud_debug_info"@ != "cloud_subscribe_topics"@) by {
        assert("show_cloud_debug_info"@.len() != "cloud_subscribe_topics"@.len());
    }
    assert("show_cloud_debug_info"@ != "cloud_publish_topics"@) by {
        assert("show_cloud_debug_info"@.len() != "cloud_publish_topics"@.len());
    }
    reveal_strlit("show_cloud_debug_info = ");
    reveal_strlit("true");
    reveal_strlit("false");
    let v = bool_text(m.show_cloud_debug_info);
    assert("false"@ != "true"@) by {
        assert("false"@.len() != "true"@.len());
    }
    assert("show_cloud_debug_info = "@ + v =~= "show_cloud_debug_info"@ + " = "@ + v);
    lemma_concat_lacks("show_cloud_debug_info = "@, v, '\n');
    lemma_setting_line(s, "show_cloud_debug_info"@, v);
}

/// The `dataflow_enabled` line of the settings file reads back as the setting it was written from.
proof fn lemma_reads_dataflow_enabled(s: ConfigModel, m: ConfigModel)
    ensures
        apply_line(s, "dataflow_enabled = "@ + bool_text(m.dataflow_enabled)) == (ConfigModel { dataflow_enabled: m.dataflow_enabled, ..s }),
        !("dataflow_enabled = "@ + bool_text(m.dataflow_enabled)).contains('\n'),
        strip_cr("dataflow_enabled = "@ + bool_text(m.dataflow_enabled)) == "dataflow_enabled = "@ + bool_text(m.dataflow_enabled),
{
    reveal_strlit("dataflow_enabled");
    reveal_strlit(" = ");
    reveal_strlit("selected_port");
    reveal_strlit("baud_rate");
    reveal_strlit("data_bits");
    reveal_strlit("parity");
    reveal_strlit("stop_bits");
    reveal_strlit("display_mode");
    reveal_strlit("receive_encoding");
    reveal_strlit("should_auto_scroll");
    reveal_strlit("send_encoding");
    reveal_strlit("send_newline");
    reveal_strlit("is_dark_mode");
    reveal_strlit("show_settings_panel");
    reveal_strlit("use_cloud_communication");
    reveal_strlit("cloud_service");
    reveal_strlit("cloud_protocol");
    reveal_strlit("cloud_uid");
    reveal_strlit("cloud_subscribe_topics");
    reveal_strlit("cloud_publish_topics");
    reveal_strlit("show_cloud_debug_info");
    assert("dataflow_enabled"@ != "selected_port"@) by {
        assert("dataflow_enabled"@.len() != "selected_port"@.len());
    }
    assert("dataflow_enabled"@ != "baud_rate"@) by {
        assert("dataflow_enabled"@.len() != "baud_rate"@.len());
    }
    assert("dataflow_enabled"@ != "data_bits"@) by {
        assert("dataflow_enabled"@.len() != "data_bits"@.len());
    }
    assert("dataflow_enabled"@ != "parity"@) by {
        assert("dataflow_enabled"@.len() != "parity"@.len());
    }
    assert("dataflow_enabled"@ != "stop_bits"@) by {
        assert("dataflow_enabled"@.len() != "stop_bits"@.len());
    }
    assert("dataflow_enabled"@ != "display_mode"@) by {
        assert("dataflow_enabled"@.len() != "display_mode"@.len());
    }
    assert("dataflow_enabled"@ != "receive_encoding"@) by {
        assert("dataflow_enabled"@[0] != "receive_encoding"@[0]);
    }
    assert("dataflow_enabled"@ != "should_auto_scroll"@) by {
        assert("dataflow_enabled"@.len() != "should_auto_scroll"@.len());
    }
    assert("dataflow_enabled"@ != "send_encoding"@) by {
        assert("dataflow_enabled"@.len() != "send_encoding"@.len());
    }
    assert("dataflow_enabled"@ != "send_newline"@) by {
        assert("dataflow_enabled"@.len() != "send_newline"@.len());
    }
    assert("dataflow_enabled"@ != "is_dark_mode"@) by {
        assert("dataflow_enabled"@.len() != "is_dark_mode"@.len());
    }
    assert("dataflow_enabled"@ != "show_settings_panel"@) by {
        assert("dataflow_enabled"@.len() != "show_settings_panel"@.len());
    }
    assert("dataflow_enabled"@ != "use_cloud_communication"@) by {
        assert("dataflow_enabled"@.len() != "use_cloud_communication"@.len());
    }
    assert("dataflow_enabled"@ != "cloud_service"@) by {
        assert("dataflow_enabled"@.len() != "cloud_service"@.len());
    }
    assert("dataflow_enabled"@ != "cloud_protocol"@) by {
        assert("dataflow_enabled"@.len() != "cloud_protocol"@.len());
    }
    assert("dataflow_enabled"@ != "cloud_uid"@) by {
        assert("dataflow_enabled"@.len() != "cloud_uid"@.len());
    }
    assert("dataflow_enabled"@ != "cloud_subscribe_topics"@) by {
        assert("dataflow_enabled"@.len() != "cloud_subscribe_topics"@.len());
    }
    assert("dataflow_enabled"@ != "cloud_publish_topics"@) by {
        assert("dataflow_enabled"@.len() != "cloud_publish_topics"@.len());
    }
    assert("dataflow_enabled"@ != "show_cloud_debug_info"@) by {
        assert("dataflow_enabled"@.len() != "show_cloud_debug_info"@.len());
    }
    reveal_strlit("dataflow_enabled = ");
    reveal_strlit("true");
    reveal_strlit("false");
    let v = bool_text(m.dataflow_enabled);
    assert("false"@ != "true"@) by {
        assert("false"@.len() != "true"@.len());
    }
    assert("dataflow_enabled = "@ + v =~= "dataflow_enabled"@ + " = "@ + v);
    lemma_concat_lacks("dataflow_enabled = "@, v, '\n');
    lemma_setting_line(s, "dataflow_enabled"@, v);
}

/// The `use_dedicated_firmware` line of the settings file reads back as the setting it was written from.
proof fn lemma_reads_use_dedicated_firmware(s: ConfigModel, m: ConfigModel)
    ensures
        apply_line(s, "use_dedicated_firmware = "@ + bool_text(m.use_dedicated_firmware)) == (ConfigModel { use_dedicated_firmware: m.use_dedicated_firmware, ..s }),
        !("use_dedicated_firmware = "@ + bool_text(m.use_dedicated_firmware)).contains('\n'),
        strip_cr("use_dedicated_firmware = "@ + bool_text(m.use_dedicated_firmware)) == "use_dedicated_firmware = "@ + bool_text(m.use_dedicated_firmware),
{
    reveal_strlit("use_dedicated_firmware");
    reveal_strlit(" = ");
    reveal_strlit("selected_port");
    reveal_strlit("baud_rate");
    reveal_strlit("data_bits");
    reveal_strlit("parity");
    reveal_strlit("stop_bits");
    reveal_strlit("display_mode");
    reveal_strlit("receive_encoding");
    reveal_strlit("should_auto_scroll");
    reveal_strlit("send_encoding");
    reveal_strlit("send_newline");
    reveal_strlit("is_dark_mode");
    reveal_strlit("show_settings_panel");
    reveal_strlit("use_cloud_communication");
    reveal_strlit("cloud_service");
    reveal_strlit("cloud_protocol");
    reveal_strlit("cloud_uid");
    reveal_strlit("cloud_subscribe_topics");
    reveal_strlit("cloud_publish_topics");
    reveal_strlit("show_cloud_debug_info");
    reveal_strlit("dataflow_enabled");
    assert("use_dedicated_firmware"@ != "selected_port"@) by {
        assert("use_dedicated_firmware"@.len() != "selected_port"@.len());
    }
    assert("use_dedicated_firmware"@ != "baud_rate"@) by {
        assert("use_dedicated_firmware"@.len() != "baud_rate"@.len());
    }
    assert("use_dedicated_firmware"@ != "data_bits"@) by {
        assert("use_dedicated_firmware"@.len() != "data_bits"@.len());
    }
    assert("use_dedicated_firmware"@ != "parity"@) by {
        assert("use_dedicated_firmware"@.len() != "parity"@.len());
    }
    assert("use_dedicated_firmware"@ != "stop_bits"@) by {
        assert("use_dedicated_firmware"@.len() != "stop_bits"@.len());
    }
    assert("use_dedicated_firmware"@ != "display_mode"@) by {
        assert("use_dedicated_firmware"@.len() != "display_mode"@.len());
    }
    assert("use_dedicated_firmware"@ != "receive_encoding"@) by {
        assert("use_dedicated_firmware"@.len() != "receive_encoding"@.len());
    }
    assert("use_dedicated_firmware"@ != "should_auto_scroll"@) by {
        assert("use_dedicated_firmware"@.len() != "should_auto_scroll"@.len());
    }
    assert("use_dedicated_firmware"@ != "send_encoding"@) by {
        assert("use_dedicated_firmware"@.len() != "send_encoding"@.len());
    }
    assert("use_dedicated_firmware"@ != "send_newline"@) by {
        assert("use_dedicated_firmware"@.len() != "send_newline"@.len());
    }
    assert("use_dedicated_firmware"@ != "is_dark_mode"@) by {
        assert("use_dedicated_firmware"@.len() != "is_dark_mode"@.len());
    }
    assert("use_dedicated_firmware"@ != "show_settings_panel"@) by {
        assert("use_dedicated_firmware"@.len() != "show_settings_panel"@.len());
    }
    assert("use_dedicated_firmware"@ != "use_cloud_communication"@) by {
        assert("use_dedicated_firmware"@.len() != "use_cloud_communication"@.len());
    }
    assert("use_dedicated_firmware"@ != "cloud_service"@) by {
        assert("use_dedicated_firmware"@.len() != "cloud_service"@.len());
    }
    assert("use_dedicated_firmware"@ != "cloud_protocol"@) by {
        assert("use_dedicated_firmware"@.len() != "cloud_protocol"@.len());
    }
    assert("use_dedicated_firmware"@ != "cloud_uid"@) by {
        assert("use_dedicated_firmware"@.len() != "cloud_uid"@.len());
    }
    assert("use_dedicated_firmware"@ != "cloud_subscribe_topics"@) by {
        assert("use_dedicated_firmware"@[0] != "cloud_subscribe_topics"@[0]);
    }
    assert("use_dedicated_firmware"@ != "cloud_publish_topics"@) by {
        assert("use_dedicated_firmware"@.len() != "cloud_publish_topics"@.len());
    }
    assert("use_dedicated_firmware"@ != "show_cloud_debug_info"@) by {
        assert("use_dedicated_firmware"@.len() != "show_cloud_debug_info"@.len());
    }
    assert("use_dedicated_firmware"@ != "dataflow_enabled"@) by {
        assert("use_dedicated_firmware"@.len() != "dataflow_enabled"@.len());
    }
    reveal_strlit("use_dedicated_firmware = ");
    reveal_strlit("true");
    reveal_strlit("false");
    let v = bool_text(m.use_dedicated_firmware);
    assert("false"@ != "true"@) by {
        assert("false"@.len() != "true"@.len());
    }
    assert("use_dedicated_firmware = "@ + v =~= "use_dedicated_firmware"@ + " = "@ + v);
    lemma_concat_lacks("use_dedicated_firmware = "@, v, '\n');
    lemma_setting_line(s, "use_dedicated_firmware"@, v);
}

/// The `shortcuts` line of the settings file reads back as the setting it was written from.
proof fn lemma_reads_shortcuts(s: ConfigModel, m: ConfigModel)
    requires
        shortcuts_round_trip(m.shortcuts),
    ensures
        apply_line(s, "shortcuts = ["@ + debug_list(m.shortcuts) + "]"@) == (ConfigModel { shortcuts: m.shortcuts, ..s }),
        !("shortcuts = ["@ + debug_list(m.shortcuts) + "]"@).contains('\n'),
        strip_cr("shortcuts = ["@ + debug_list(m.shortcuts) + "]"@) == "shortcuts = ["@ + debug_list(m.shortcuts) + "]"@,
{
    reveal_strlit("shortcuts");
    reveal_strlit(" = ");
    reveal_strlit("selected_port");
    reveal_strlit("baud_rate");
    reveal_strlit("data_bits");
    reveal_strlit("parity");
    reveal_strlit("stop_bits");
    reveal_strlit("display_mode");
    reveal_strlit("receive_encoding");
    reveal_strlit("should_auto_scroll");
    reveal_strlit("send_encoding");
    reveal_strlit("send_newline");
    reveal_strlit("is_dark_mode");
    reveal_strlit("show_settings_panel");
    reveal_strlit("use_cloud_communication");
    reveal_strlit("cloud_service");
    reveal_strlit("cloud_protocol");
    reveal_strlit("cloud_uid");
    reveal_strlit("cloud_subscribe_topics");
    reveal_strlit("cloud_publish_topics");
    reveal_strlit("show_cloud_debug_info");
    reveal_strlit("dataflow_enabled");
    reveal_strlit("use_dedicated_firmware");
    assert("shortcuts"@ != "selected_port"@) by {
        assert("shortcuts"@.len() != "selected_port"@.len());
    }
    assert("shortcuts"@ != "baud_rate"@) by {
        assert("shortcuts"@[0] != "baud_rate"@[0]);
    }
    assert("shortcuts"@ != "data_bits"@) by {
        assert("shortcuts"@[0] != "data_bits"@[0]);
    }
    assert("shortcuts"@ != "parity"@) by {
        assert("shortcuts"@.len() != "parity"@.len());
    }
    assert("shortcuts"@ != "stop_bits"@) by {
        assert("shortcuts"@[1] != "stop_bits"@[1]);
    }
    assert("shortcuts"@ != "display_mode"@) by {
        assert("shortcuts"@.len() != "display_mode"@.len());
    }
    assert("shortcuts"@ != "receive_encoding"@) by {
        assert("shortcuts"@.len() != "receive_encoding"@.len());
    }
    assert("shortcuts"@ != "should_auto_scroll"@) by {
        assert("shortcuts"@.len() != "should_auto_scroll"@.len());
    }
    assert("shortcuts"@ != "send_encoding"@) by {
        assert("shortcuts"@.len() != "send_encoding"@.len());
    }
    assert("shortcuts"@ != "send_newline"@) by {
        assert("shortcuts"@.len() != "send_newline"@.len());
    }
    assert("shortcuts"@ != "is_dark_mode"@) by {
        assert("shortcuts"@.len() != "is_dark_mode"@.len());
    }
    assert("shortcuts"@ != "show_settings_panel"@) by {
        assert("shortcuts"@.len() != "show_settings_panel"@.len());
    }
    assert("shortcuts"@ != "use_cloud_communication"@) by {
        assert("shortcuts"@.len() != "use_cloud_communication"@.len());
    }
    assert("shortcuts"@ != "cloud_service"@) by {
        assert("shortcuts"@.len() != "cloud_service"@.len());
    }
    assert("shortcuts"@ != "cloud_protocol"@) by {
        assert("shortcuts"@.len() != "cloud_protocol"@.len());
    }
    assert("shortcuts"@ != "cloud_uid"@) by {
        assert("shortcuts"@[0] != "cloud_uid"@[0]);
    }
    assert("shortcuts"@ != "cloud_subscribe_topics"@) by {
        assert("shortcuts"@.len() != "cloud_subscribe_topics"@.len());
    }
    assert("shortcuts"@ != "cloud_publish_topics"@) by {
        assert("shortcuts"@.len() != "cloud_publish_topics"@.len());
    }
    assert("shortcuts"@ != "show_cloud_debug_info"@) by {
        assert("shortcuts"@.len() != "show_cloud_debug_info"@.len());
    }
    assert("shortcuts"@ != "dataflow_enabled"@) by {
        assert("shortcuts"@.len() != "dataflow_enabled"@.len());
    }
    assert("shortcuts"@ != "use_dedicated_firmware"@) by {
        assert("shortcuts"@.len() != "use_dedicated_firmware"@.len());
    }
    reveal_strlit("shortcuts = [");
    reveal_strlit("shortcuts = ");
    reveal_strlit("]");
    let v = seq!['['] + debug_list(m.shortcuts) + seq![']'];
    lemma_shortcuts_round_trip(m.shortcuts);
    lemma_debug_list_single_line(m.shortcuts);
    assert(!v.contains('\n')) by {
        lemma_concat_lacks(seq!['['], debug_list(m.shortcuts), '\n');
        lemma_concat_lacks(seq!['['] + debug_list(m.shortcuts), seq![']'], '\n');
    }
    assert(v[0] == '[' && v.last() == ']');
    assert("shortcuts = ["@ + debug_list(m.shortcuts) + "]"@ =~= "shortcuts"@ + " = "@ + v);
    assert("shortcuts = ["@ + debug_list(m.shortcuts) + "]"@ =~= "shortcuts = "@ + v);
    lemma_concat_lacks("shortcuts = "@, v, '\n');
    lemma_setting_line(s, "shortcuts"@, v);
}

proof fn lemma_read_step(p: Seq<Seq<char>>, s: ConfigModel, l: Seq<char>, s2: ConfigModel)
    requires
        split_char(concat_lines(p), '\n') == p.push(Seq::<char>::empty()),
        lines(concat_lines(p)) == p,
        settings_after(p) == s,
        apply_line(s, l) == s2,
        !l.contains('\n'),
        strip_cr(l) == l,
    ensures
        split_char(concat_lines(p.push(l)), '\n') == p.push(l).push(Seq::<char>::empty()),
        lines(concat_lines(p.push(l))) == p.push(l),
        settings_after(p.push(l)) == s2,
{
    lemma_lines_push(p, l);
    assert(p.push(l).drop_last() =~= p);
}

/// The settings file written from settings reads back as those settings, where
/// their texts are plain (see `settings_round_trip`) and the window lines are left
/// to the caller.
#[verifier::rlimit(100)]
pub proof fn lemma_settings_round_trip(m: ConfigModel)
    requires
        settings_round_trip(m),
    ensures
        settings_from_text(settings_text(m)) == m,
{
    let p0 = Seq::<Seq<char>>::empty();
    let s0 = default_model();
    assert(split_char(concat_lines(p0), '\n') =~= p0.push(Seq::<char>::empty()));
    assert(lines(concat_lines(p0)) =~= p0);
    assert(settings_after(p0) == s0);
    let l1 = port_setting(m.selected_port);
    lemma_reads_selected_port(s0, m);
    let s1 = ConfigModel { selected_port: m.selected_port, ..s0 };
    lemma_read_step(p0, s0, l1, s1);
    let p1 = p0.push(l1);
    let l2 = "baud_rate = "@ + decimal(m.baud_rate as nat);
    lemma_reads_baud_rate(s1, m);
    let s2 = ConfigModel { baud_rate: m.baud_rate, ..s1 };
    lemma_read_step(p1, s1, l2, s2);
    let p2 = p1.push(l2);
    let l3 = "data_bits = "@ + decimal(m.data_bits as nat);
    lemma_reads_data_bits(s2, m);
    let s3 = ConfigModel { data_bits: m.data_bits, ..s2 };
    lemma_read_step(p2, s2, l3, s3);
    let p3 = p2.push(l3);
    let l4 = "parity = "@ + decimal(m.parity as nat);
    lemma_reads_parity(s3, m);
    let s4 = ConfigModel { parity: m.parity, ..s3 };
    lemma_read_step(p3, s3, l4, s4);
    let p4 = p3.push(l4);
    let l5 = "stop_bits = "@ + decimal(m.stop_bits as nat);
    lemma_reads_stop_bits(s4, m);
    let s5 = ConfigModel { stop_bits: m.stop_bits, ..s4 };
    lemma_read_step(p4, s4, l5, s5);
    let p5 = p4.push(l5);
    let l6 = "display_mode = "@ + debug_written(m.display_mode);
    lemma_reads_display_mode(s5, m);
    let s6 = ConfigModel { display_mode: m.display_mode, ..s5 };
    lemma_read_step(p5, s5, l6, s6);
    let p6 = p5.push(l6);
    let l7 = "receive_encoding = "@ + debug_written(m.receive_encoding);
    lemma_reads_receive_encoding(s6, m);
    let s7 = ConfigModel { receive_encoding: m.receive_encoding, ..s6 };
    lemma_read_step(p6, s6, l7, s7);
    let p7 = p6.push(l7);
    let l8 = "should_auto_scroll = "@ + bool_text(m.should_auto_scroll);
    lemma_reads_should_auto_scroll(s7, m);
    let s8 = ConfigModel { should_auto_scroll: m.should_auto_scroll, ..s7 };
    lemma_read_step(p7, s7, l8, s8);
    let p8 = p7.push(l8);
    let l9 = "send_encoding = "@ + debug_written(m.send_encoding);
    lemma_reads_send_encoding(s8, m);
    let s9 = ConfigModel { send_encoding: m.send_encoding, ..s8 };
    lemma_read_step(p8, s8, l9, s9);
    let p9 = p8.push(l9);
    let l10 = "send_newline = "@ + bool_text(m.send_newline);
    lemma_reads_send_newline(s9, m);
    let s10 = ConfigModel { send_newline: m.send_newline, ..s9 };
    lemma_read_step(p9, s9, l10, s10);
    let p10 = p9.push(l10);
    let l11 = "is_dark_mode = "@ + bool_text(m.is_dark_mode);
    lemma_reads_is_dark_mode(s10, m);
    let s11 = ConfigModel { is_dark_mode: m.is_dark_mode, ..s10 };
    lemma_read_step(p10, s10, l11, s11);
    let p11 = p10.push(l11);
    let l12 = "show_settings_panel = "@ + bool_text(m.show_settings_panel);
    lemma_reads_show_settings_panel(s11, m);
    let s12 = ConfigModel { show_settings_panel: m.show_settings_panel, ..s11 };
    lemma_read_step(p11, s11, l12, s12);
    let p12 = p11.push(l12);
    let l13 = "use_cloud_communication = "@ + bool_text(m.use_cloud_communication);
    lemma_reads_use_cloud_communication(s12, m);
    let s13 = ConfigModel { use_cloud_communication: m.use_cloud_communication, ..s12 };
    lemma_read_step(p12, s12, l13, s13);
    let p13 = p12.push(l13);
    let l14 = "cloud_service = "@ + debug_written(m.cloud_service);
    lemma_reads_cloud_service(s13, m);
    let s14 = ConfigModel { cloud_service: m.cloud_service, ..s13 };
    lemma_read_step(p13, s13, l14, s14);
    let p14 = p13.push(l14);
    let l15 = "cloud_protocol = "@ + debug_written(m.cloud_protocol);
    lemma_reads_cloud_protocol(s14, m);
    let s15 = ConfigModel { cloud_protocol: m.cloud_protocol, ..s14 };
    lemma_read_step(p14, s14, l15, s15);
    let p15 = p14.push(l15);
    let l16 = "cloud_uid = "@ + debug_written(m.cloud_uid);
    lemma_reads_cloud_uid(s15, m);
    let s16 = ConfigModel { cloud_uid: m.cloud_uid, ..s15 };
    lemma_read_step(p15, s15, l16, s16);
    let p16 = p15.push(l16);
    let l17 = "cloud_subscribe_topics = "@ + debug_written(crate::text::join(m.cloud_subscribe_topics, ", "@));
    lemma_reads_cloud_subscribe_topics(s16, m);
    let s17 = ConfigModel { cloud_subscribe_topics: m.cloud_subscribe_topics, ..s16 };
    lemma_read_step(p16, s16, l17, s17);
    let p17 = p16.push(l17);
    let l18 = "cloud_publish_topics = "@ + debug_written(crate::text::join(m.cloud_publish_topics, ", "@));
    lemma_reads_cloud_publish_topics(s17, m);
    let s18 = ConfigModel { cloud_publish_topics: m.cloud_publish_topics, ..s17 };
    lemma_read_step(p17, s17, l18, s18);
    let p18 = p17.push(l18);
    let l19 = "show_cloud_debug_info = "@ + bool_text(m.show_cloud_debug_info);
    lemma_reads_show_cloud_debug_info(s18, m);
    let s19 = ConfigModel { show_cloud_debug_info: m.show_cloud_debug_info, ..s18 };
    lemma_read_step(p18, s18, l19, s19);
    let p19 = p18.push(l19);
    let l20 = "dataflow_enabled = "@ + bool_text(m.dataflow_enabled);
    lemma_reads_dataflow_enabled(s19, m);
    let s20 = ConfigModel { dataflow_enabled: m.dataflow_enabled, ..s19 };
    lemma_read_step(p19, s19, l20, s20);
    let p20 = p19.push(l20);
    let l21 = "use_dedicated_firmware = "@ + bool_text(m.use_dedicated_firmware);
    lemma_reads_use_dedicated_firmware(s20, m);
    let s21 = ConfigModel { use_dedicated_firmware: m.use_dedicated_firmware, ..s20 };
    lemma_read_step(p20, s20, l21, s21);
    let p21 = p20.push(l21);
    let l22 = "shortcuts = ["@ + debug_list(m.shortcuts) + "]"@;
    lemma_reads_shortcuts(s21, m);
    let s22 = ConfigModel { shortcuts: m.shortcuts, ..s21 };
    lemma_read_step(p21, s21, l22, s22);
    let p22 = p21.push(l22);
    assert(p22 =~= settings_lines(m));
    assert(s22.window_settings =~= m.window_settings);
    assert(s22 == m);
}

} // verus!
