//! Shortcut configuration: the bindings of each action and the rules by
//! which they are edited, merged with the defaults and migrated.

use crate::shortcuts::same_text;
use vstd::prelude::*;
use vstd::string::{StrSliceExecFns, StringExecFns};

verus! {

/// One shortcut binding: modifier keys, a key, and whether it is in use.
#[derive(Debug, PartialEq)]
pub struct ShortcutConfig {
    pub modifiers: Vec<String>,
    pub key: String,
    pub enabled: bool,
}

/// Mathematical model of a shortcut binding.
pub struct ShortcutView {
    pub modifiers: Seq<Seq<char>>,
    pub key: Seq<char>,
    pub enabled: bool,
}

impl View for ShortcutConfig {
    type V = ShortcutView;

    open spec fn view(&self) -> ShortcutView {
        ShortcutView { modifiers: self.modifiers.deep_view(), key: self.key@, enabled: self.enabled }
    }
}

/// The texts of the given parts, each followed by a plus sign.
pub open spec fn plus_terminated(parts: Seq<Seq<char>>) -> Seq<char>
    decreases parts.len(),
{
    if parts.len() == 0 {
        Seq::empty()
    } else {
        plus_terminated(parts.drop_last()) + parts.last() + seq!['+']
    }
}

/// The text of a shortcut: its modifiers and then its key, joined by plus
/// signs, as in `Ctrl+Shift+K`.
pub open spec fn shortcut_text(shortcut: ShortcutView) -> Seq<char> {
    plus_terminated(shortcut.modifiers) + shortcut.key
}

/// The parts of a text between its plus signs. A text without a plus sign is
/// its own single part, and two plus signs in a row hold an empty part.
pub open spec fn split_plus(text: Seq<char>) -> Seq<Seq<char>>
    decreases text.len(),
{
    if text.len() == 0 {
        seq![Seq::<char>::empty()]
    } else if text.last() == '+' {
        split_plus(text.drop_last()).push(Seq::empty())
    } else {
        let before = split_plus(text.drop_last());
        before.drop_last().push(before.last().push(text.last()))
    }
}

/// A text always has at least one part.
pub proof fn lemma_split_nonempty(text: Seq<char>)
    ensures
        split_plus(text).len() >= 1,
    decreases text.len(),
{
    if text.len() > 0 {
        lemma_split_nonempty(text.drop_last());
    }
}

/// Splitting loses nothing: the parts of a text, joined by plus signs, give
/// the text back.
pub proof fn lemma_split_joins_back(text: Seq<char>)
    ensures
        split_plus(text).len() >= 1,
        plus_terminated(split_plus(text).drop_last()) + split_plus(text).last() == text,
    decreases text.len(),
{
    if text.len() == 0 {
        assert(split_plus(text).drop_last() =~= Seq::<Seq<char>>::empty());
        assert(plus_terminated(split_plus(text).drop_last()) + split_plus(text).last() =~= text);
    } else {
        let shorter = text.drop_last();
        lemma_split_joins_back(shorter);
        let before = split_plus(shorter);
        if text.last() == '+' {
            let parts = before.push(Seq::empty());
            assert(parts.drop_last() =~= before);
            assert(before.drop_last().push(before.last()) =~= before);
            assert(plus_terminated(before) == plus_terminated(before.drop_last()) + before.last()
                + seq!['+']);
            assert(plus_terminated(before) + Seq::<char>::empty() =~= shorter + seq!['+']);
            assert(shorter + seq!['+'] =~= text);
        } else {
            let parts = before.drop_last().push(before.last().push(text.last()));
            assert(parts.drop_last() =~= before.drop_last());
            assert(plus_terminated(before.drop_last()) + before.last().push(text.last()) =~= (
            plus_terminated(before.drop_last()) + before.last()).push(text.last()));
            assert(shorter.push(text.last()) =~= text);
        }
    }
}

/// No part of a text holds a plus sign.
pub proof fn lemma_split_parts_plus_free(text: Seq<char>)
    ensures
        forall|i: int, j: int|
            0 <= i < split_plus(text).len() && 0 <= j < split_plus(text)[i].len() ==> split_plus(
                text,
            )[i][j] != '+',
    decreases text.len(),
{
    if text.len() > 0 {
        lemma_split_parts_plus_free(text.drop_last());
        lemma_split_nonempty(text.drop_last());
    }
}

/// Whether two lists of strings hold the same texts in the same order.
pub fn same_strings(a: &Vec<String>, b: &Vec<String>) -> (same: bool)
    ensures
        same == (a.deep_view() == b.deep_view()),
{
    if a.len() != b.len() {
        assert(a.deep_view().len() != b.deep_view().len());
        return false;
    }
    let mut i: usize = 0;
    while i < a.len()
        invariant
            i <= a.len(),
            a.len() == b.len(),
            forall|k: int| 0 <= k < i ==> a@[k]@ == b@[k]@,
        decreases a.len() - i,
    {
        if a[i] != b[i] {
            assert(a.deep_view()[i as int] != b.deep_view()[i as int]);
            return false;
        }
        i += 1;
    }
    assert(a.deep_view() =~= b.deep_view());
    true
}

/// Copies a list of strings.
pub fn clone_strings(list: &Vec<String>) -> (copy: Vec<String>)
    ensures
        copy.deep_view() == list.deep_view(),
{
    let mut copy: Vec<String> = Vec::new();
    let mut i: usize = 0;
    while i < list.len()
        invariant
            i <= list.len(),
            copy@.len() == i,
            forall|k: int| 0 <= k < i ==> copy@[k]@ == list@[k]@,
        decreases list.len() - i,
    {
        copy.push(list[i].clone());
        i += 1;
    }
    assert(copy.deep_view() =~= list.deep_view());
    copy
}

impl Clone for ShortcutConfig {
    fn clone(&self) -> (copy: Self)
        ensures
            copy@ == self@,
    {
        ShortcutConfig {
            modifiers: clone_strings(&self.modifiers),
            key: self.key.clone(),
            enabled: self.enabled,
        }
    }
}

impl ShortcutConfig {
    /// The shortcut as text: `Alt+A`, `Ctrl+Shift+K`, or the key alone where
    /// there is no modifier.
    pub fn to_shortcut_string(&self) -> (text: String)
        ensures
            text@ == shortcut_text(self@),
    {
        let mut text = String::new();
        let mut i: usize = 0;
        while i < self.modifiers.len()
            invariant
                i <= self.modifiers.len(),
                text@ == plus_terminated(self.modifiers.deep_view().subrange(0, i as int)),
            decreases self.modifiers.len() - i,
        {
            let ghost before = self.modifiers.deep_view().subrange(0, i as int);
            let ghost after = self.modifiers.deep_view().subrange(0, i + 1);
            text.append(self.modifiers[i].as_str());
            text.append("+");
            proof {
                reveal_strlit("+");
                assert("+"@ =~= seq!['+']);
                assert(after.drop_last() =~= before);
                assert(after.last() == self.modifiers@[i as int]@);
            }
            i += 1;
        }
        assert(self.modifiers.deep_view().subrange(0, i as int) =~= self.modifiers.deep_view());
        text.append(self.key.as_str());
        text
    }

    /// Reads a shortcut from text: the part after the last plus sign is the
    /// key, the parts before it are the modifiers, and the shortcut is in
    /// use. Every text is accepted.
    pub fn from_shortcut_string(s: &str) -> (r: Option<Self>)
        ensures
            r is Some,
            r->0.enabled,
            r->0@.modifiers.push(r->0@.key) == split_plus(s@),
    {
        let len = s.unicode_len();
        let mut modifiers: Vec<String> = Vec::new();
        let mut start: usize = 0;
        let mut i: usize = 0;
        proof {
            assert(s@.subrange(0, 0) =~= Seq::<char>::empty());
            assert(modifiers.deep_view().push(s@.subrange(0, 0)) =~= split_plus(
                s@.subrange(0, 0),
            ));
        }
        while i < len
            invariant
                len == s@.len(),
                start <= i <= len,
                modifiers.deep_view().push(s@.subrange(start as int, i as int)) == split_plus(
                    s@.subrange(0, i as int),
                ),
            decreases len - i,
        {
            let c = s.get_char(i);
            let ghost prefix = s@.subrange(0, i as int);
            let ghost longer = s@.subrange(0, i + 1);
            let ghost current = s@.subrange(start as int, i as int);
            let ghost parts = modifiers.deep_view();
            proof {
                assert(longer.drop_last() =~= prefix);
                assert(longer.last() == c);
                assert(parts.push(current).drop_last() =~= parts);
                assert(parts.push(current).last() == current);
            }
            if c == '+' {
                let part = String::from_str(s.substring_char(start, i));
                modifiers.push(part);
                start = i + 1;
                proof {
                    assert(modifiers.deep_view() =~= parts.push(current));
                    assert(s@.subrange(start as int, i + 1) =~= Seq::<char>::empty());
                }
            } else {
                proof {
                    assert(s@.subrange(start as int, i + 1) =~= current.push(c));
                }
            }
            i += 1;
        }
        assert(s@.subrange(0, i as int) =~= s@);
        let key = String::from_str(s.substring_char(start, len));
        Some(ShortcutConfig { modifiers, key, enabled: true })
    }
}

/// The models of a list of shortcuts.
pub open spec fn shortcut_views(list: Seq<ShortcutConfig>) -> Seq<ShortcutView> {
    Seq::new(list.len(), |i: int| list[i]@)
}

/// Copies a list of shortcuts.
pub fn clone_shortcuts(list: &Vec<ShortcutConfig>) -> (copy: Vec<ShortcutConfig>)
    ensures
        shortcut_views(copy@) == shortcut_views(list@),
{
    let mut copy: Vec<ShortcutConfig> = Vec::new();
    let mut i: usize = 0;
    while i < list.len()
        invariant
            i <= list.len(),
            copy@.len() == i,
            forall|k: int| 0 <= k < i ==> copy@[k]@ == list@[k]@,
        decreases list.len() - i,
    {
        copy.push(list[i].clone());
        i += 1;
    }
    assert(shortcut_views(copy@) =~= shortcut_views(list@));
    copy
}

/// Whether two shortcuts are the same binding: the same modifiers in the
/// same order and the same key, in use or not.
pub open spec fn same_binding(a: ShortcutView, b: ShortcutView) -> bool {
    a.modifiers == b.modifiers && a.key == b.key
}

/// Whether a list holds the given binding.
pub open spec fn has_binding(list: Seq<ShortcutView>, shortcut: ShortcutView) -> bool {
    exists|i: int| 0 <= i < list.len() && same_binding(#[trigger] list[i], shortcut)
}

/// Tells whether a list holds the given binding.
pub fn contains_binding(list: &Vec<ShortcutConfig>, shortcut: &ShortcutConfig) -> (found: bool)
    ensures
        found == has_binding(shortcut_views(list@), shortcut@),
{
    let mut i: usize = 0;
    while i < list.len()
        invariant
            i <= list.len(),
            forall|k: int| 0 <= k < i ==> !same_binding(#[trigger] shortcut_views(list@)[k], shortcut@),
        decreases list.len() - i,
    {
        if same_strings(&list[i].modifiers, &shortcut.modifiers) && list[i].key == shortcut.key {
            assert(same_binding(shortcut_views(list@)[i as int], shortcut@));
            return true;
        }
        i += 1;
    }
    false
}

/// The shortcuts of one action.
#[derive(Debug)]
pub struct ShortcutEntry {
    pub action: String,
    pub shortcuts: Vec<ShortcutConfig>,
}

/// Mathematical model of the shortcuts of one action.
pub struct EntryView {
    pub action: Seq<char>,
    pub shortcuts: Seq<ShortcutView>,
}

impl View for ShortcutEntry {
    type V = EntryView;

    open spec fn view(&self) -> EntryView {
        EntryView { action: self.action@, shortcuts: shortcut_views(self.shortcuts@) }
    }
}

/// No two entries are for the same action.
pub open spec fn distinct_actions(entries: Seq<EntryView>) -> bool {
    forall|i: int, j: int|
        0 <= i < entries.len() && 0 <= j < entries.len() && i != j ==> (#[trigger] entries[i]).action
            != (#[trigger] entries[j]).action
}

/// Whether there is an entry for the action.
pub open spec fn has_action(entries: Seq<EntryView>, action: Seq<char>) -> bool {
    exists|i: int| 0 <= i < entries.len() && (#[trigger] entries[i]).action == action
}

/// Index of the entry for the action, where there is one.
pub open spec fn action_index(entries: Seq<EntryView>, action: Seq<char>) -> int {
    choose|i: int| 0 <= i < entries.len() && (#[trigger] entries[i]).action == action
}

/// The shortcuts of the action, where it has an entry.
pub open spec fn lookup(entries: Seq<EntryView>, action: Seq<char>) -> Option<Seq<ShortcutView>> {
    if has_action(entries, action) {
        Some(entries[action_index(entries, action)].shortcuts)
    } else {
        None
    }
}

/// The entries with the shortcuts of the action replaced, or with a new
/// entry at the end where the action had none.
pub open spec fn upsert(
    entries: Seq<EntryView>,
    action: Seq<char>,
    shortcuts: Seq<ShortcutView>,
) -> Seq<EntryView> {
    if has_action(entries, action) {
        entries.update(action_index(entries, action), EntryView { action, shortcuts })
    } else {
        entries.push(EntryView { action, shortcuts })
    }
}

/// After an action's shortcuts are set, the action has exactly those
/// shortcuts, every other action has what it had, and still no two entries
/// are for the same action.
pub proof fn lemma_upsert_lookup(
    entries: Seq<EntryView>,
    action: Seq<char>,
    shortcuts: Seq<ShortcutView>,
    other: Seq<char>,
)
    requires
        distinct_actions(entries),
    ensures
        distinct_actions(upsert(entries, action, shortcuts)),
        lookup(upsert(entries, action, shortcuts), action) == Some(shortcuts),
        other != action ==> lookup(upsert(entries, action, shortcuts), other) == lookup(
            entries,
            other,
        ),
{
    let after = upsert(entries, action, shortcuts);
    let entry = EntryView { action, shortcuts };
    if has_action(entries, action) {
        let i = action_index(entries, action);
        assert(after[i] == entry);
        assert(forall|k: int| 0 <= k < after.len() && k != i ==> after[k] == entries[k]);
        assert(has_action(after, action));
        let j = action_index(after, action);
        assert(j == i) by {
            if j != i {
                assert(after[j] == entries[j]);
                assert(entries[j].action != entries[i].action);
            }
        }
        if other != action {
            if has_action(entries, other) {
                let a = action_index(entries, other);
                assert(after[a] == entries[a]);
                assert(has_action(after, other));
                let b = action_index(after, other);
                assert(b != i);
                assert(after[b] == entries[b]);
                assert(a == b) by {
                    if a != b {
                        assert(entries[a].action != entries[b].action);
                    }
                }
            } else {
                if has_action(after, other) {
                    let b = action_index(after, other);
                    assert(after[b] == entries[b]);
                    assert(entries[b].action == other);
                }
            }
        }
        assert forall|a: int, b: int|
            0 <= a < after.len() && 0 <= b < after.len() && a != b implies (#[trigger] after[a]).action
            != (#[trigger] after[b]).action by {
            assert(after[a].action == entries[a].action);
            assert(after[b].action == entries[b].action);
        }
    } else {
        let n = entries.len() as int;
        assert(after[n] == entry);
        assert(forall|k: int| 0 <= k < n ==> after[k] == entries[k]);
        assert(has_action(after, action));
        let j = action_index(after, action);
        assert(j == n) by {
            if j != n {
                assert(after[j] == entries[j]);
                assert(entries[j].action == action);
            }
        }
        if other != action {
            if has_action(entries, other) {
                let a = action_index(entries, other);
                assert(after[a] == entries[a]);
                assert(has_action(after, other));
                let b = action_index(after, other);
                assert(b != n);
                assert(after[b] == entries[b]);
                assert(a == b) by {
                    if a != b {
                        assert(entries[a].action != entries[b].action);
                    }
                }
            } else {
                if has_action(after, other) {
                    let b = action_index(after, other);
                    assert(b != n);
                    assert(after[b] == entries[b]);
                    assert(entries[b].action == other);
                }
            }
        }
        assert forall|a: int, b: int|
            0 <= a < after.len() && 0 <= b < after.len() && a != b implies (#[trigger] after[a]).action
            != (#[trigger] after[b]).action by {
            if a < n {
                assert(after[a] == entries[a]);
            }
            if b < n {
                assert(after[b] == entries[b]);
            }
        }
    }
}

/// The shortcuts of every action: a map from the name of an action to its
/// shortcuts. No two entries are for the same action; the entries keep the
/// order in which their actions were first set. It is a vector with the
/// invariant of a map because vstd gives std's hash map a model only for
/// keys of integer type: of a map keyed by text nothing can be proved.
#[derive(Debug)]
pub struct ShortcutTable {
    entries: Vec<ShortcutEntry>,
}

impl View for ShortcutTable {
    type V = Seq<EntryView>;

    closed spec fn view(&self) -> Seq<EntryView> {
        Seq::new(self.entries@.len(), |i: int| self.entries@[i]@)
    }
}

impl ShortcutTable {
    #[verifier::type_invariant]
    spec fn inv(self) -> bool {
        distinct_actions(self@)
    }

    /// A table without entries.
    pub fn new() -> (table: Self)
        ensures
            table@ == Seq::<EntryView>::empty(),
    {
        let table = ShortcutTable { entries: Vec::new() };
        assert(table@ =~= Seq::<EntryView>::empty());
        table
    }

    /// Number of actions that have an entry.
    pub fn len(&self) -> (n: usize)
        ensures
            n == self@.len(),
            distinct_actions(self@),
    {
        proof {
            use_type_invariant(self);
        }
        self.entries.len()
    }

    /// The entry with the given index, in the order of the table.
    pub fn entry(&self, index: usize) -> (e: Option<&ShortcutEntry>)
        ensures
            match e {
                Some(entry) => index < self@.len() && entry@ == self@[index as int],
                None => index >= self@.len(),
            },
    {
        if index < self.entries.len() {
            Some(&self.entries[index])
        } else {
            None
        }
    }

    /// Index of the entry for the action, if there is one.
    fn position(&self, action: &String) -> (r: Option<usize>)
        ensures
            match r {
                Some(i) => has_action(self@, action@) && i == action_index(self@, action@) && i
                    < self@.len(),
                None => !has_action(self@, action@),
            },
    {
        proof {
            use_type_invariant(self);
        }
        let mut i: usize = 0;
        while i < self.entries.len()
            invariant
                i <= self.entries.len(),
                distinct_actions(self@),
                forall|k: int| 0 <= k < i ==> (#[trigger] self@[k]).action != action@,
            decreases self.entries.len() - i,
        {
            if self.entries[i].action == *action {
                proof {
                    assert(self@[i as int].action == action@);
                    let j = action_index(self@, action@);
                    if j != i {
                        assert(self@[j].action != self@[i as int].action);
                    }
                }
                return Some(i);
            }
            i += 1;
        }
        None
    }

    /// Whether the action has an entry.
    pub fn contains_key(&self, action: &str) -> (found: bool)
        ensures
            found == has_action(self@, action@),
    {
        let key = String::from_str(action);
        self.position(&key).is_some()
    }

    /// The shortcuts of the action, if it has an entry.
    pub fn get(&self, action: &str) -> (r: Option<&Vec<ShortcutConfig>>)
        ensures
            match r {
                Some(list) => lookup(self@, action@) == Some(shortcut_views(list@)),
                None => lookup(self@, action@) is None,
            },
            distinct_actions(self@),
    {
        proof {
            use_type_invariant(self);
        }
        let key = String::from_str(action);
        match self.position(&key) {
            Some(i) => Some(&self.entries[i].shortcuts),
            None => None,
        }
    }

    /// Sets the shortcuts of the action, replacing those it had.
    pub fn insert(&mut self, action: String, shortcuts: Vec<ShortcutConfig>)
        ensures
            final(self)@ == upsert(old(self)@, action@, shortcut_views(shortcuts@)),
            distinct_actions(final(self)@),
    {
        proof {
            use_type_invariant(&*self);
            lemma_upsert_lookup(self@, action@, shortcut_views(shortcuts@), action@);
        }
        let ghost before = self@;
        let found = self.position(&action);
        let mut taken = ShortcutTable::new();
        core::mem::swap(self, &mut taken);
        let ShortcutTable { mut entries } = taken;
        let entry = ShortcutEntry { action, shortcuts };
        match found {
            Some(i) => {
                entries.set(i, entry);
            },
            None => {
                entries.push(entry);
            },
        }
        proof {
            let after = Seq::new(entries@.len(), |i: int| entries@[i]@);
            assert(after =~= upsert(before, action@, shortcut_views(shortcuts@)));
        }
        let next = ShortcutTable { entries };
        assert(next@ =~= upsert(before, action@, shortcut_views(shortcuts@)));
        *self = next;
    }
}

impl Clone for ShortcutTable {
    fn clone(&self) -> (copy: Self)
        ensures
            copy@ == self@,
    {
        proof {
            use_type_invariant(self);
        }
        let mut entries: Vec<ShortcutEntry> = Vec::new();
        let mut i: usize = 0;
        while i < self.entries.len()
            invariant
                i <= self.entries.len(),
                entries@.len() == i,
                forall|k: int| 0 <= k < i ==> entries@[k]@ == self.entries@[k]@,
            decreases self.entries.len() - i,
        {
            entries.push(
                ShortcutEntry {
                    action: self.entries[i].action.clone(),
                    shortcuts: clone_shortcuts(&self.entries[i].shortcuts),
                },
            );
            i += 1;
        }
        proof {
            let after = Seq::new(entries@.len(), |i: int| entries@[i]@);
            assert(after =~= self@);
        }
        let copy = ShortcutTable { entries };
        assert(copy@ =~= self@);
        copy
    }
}

/// Application configuration: the shortcuts of every action and the
/// switches of the application.
#[derive(Debug)]
pub struct AppConfig {
    pub version: String,
    pub shortcuts: ShortcutTable,
    pub developer_mode: bool,
    pub autostart_enabled: bool,
    pub scroll_capture_enabled: bool,
    pub screenshot_preview_enabled: bool,
}

/// Mathematical model of the application configuration.
pub struct AppConfigView {
    pub version: Seq<char>,
    pub shortcuts: Seq<EntryView>,
    pub developer_mode: bool,
    pub autostart_enabled: bool,
    pub scroll_capture_enabled: bool,
    pub screenshot_preview_enabled: bool,
}

impl View for AppConfig {
    type V = AppConfigView;

    open spec fn view(&self) -> AppConfigView {
        AppConfigView {
            version: self.version@,
            shortcuts: self.shortcuts@,
            developer_mode: self.developer_mode,
            autostart_enabled: self.autostart_enabled,
            scroll_capture_enabled: self.scroll_capture_enabled,
            screenshot_preview_enabled: self.screenshot_preview_enabled,
        }
    }
}

impl AppConfigView {
    /// The same configuration with other shortcuts.
    pub open spec fn with_shortcuts(self, shortcuts: Seq<EntryView>) -> AppConfigView {
        AppConfigView {
            version: self.version,
            shortcuts,
            developer_mode: self.developer_mode,
            autostart_enabled: self.autostart_enabled,
            scroll_capture_enabled: self.scroll_capture_enabled,
            screenshot_preview_enabled: self.screenshot_preview_enabled,
        }
    }
}

impl Clone for AppConfig {
    fn clone(&self) -> (copy: Self)
        ensures
            copy@ == self@,
    {
        AppConfig {
            version: self.version.clone(),
            shortcuts: self.shortcuts.clone(),
            developer_mode: self.developer_mode,
            autostart_enabled: self.autostart_enabled,
            scroll_capture_enabled: self.scroll_capture_enabled,
            screenshot_preview_enabled: self.screenshot_preview_enabled,
        }
    }
}

/// Whether the preview of a screenshot is shown where the configuration
/// does not say.
pub fn default_screenshot_preview() -> (enabled: bool)
    ensures
        enabled,
{
    true
}

/// Whether the application starts with the system where the configuration
/// does not say.
pub fn default_autostart() -> (enabled: bool)
    ensures
        enabled,
{
    true
}

/// A binding in use, with the given modifiers and key.
pub open spec fn binding(modifiers: Seq<Seq<char>>, key: Seq<char>) -> ShortcutView {
    ShortcutView { modifiers, key, enabled: true }
}

/// The shortcuts that every action has from the start.
pub open spec fn default_shortcuts() -> Seq<EntryView> {
    let e0 = Seq::<EntryView>::empty();
    let e1 = upsert(e0, "screenshot_static"@, seq![binding(seq!["Alt"@], "A"@)]);
    let e2 = upsert(e1, "screenshot"@, seq![binding(seq!["Shift"@, "Alt"@], "A"@)]);
    let e3 = upsert(e2, "gif"@, seq![binding(seq!["Alt"@], "G"@)]);
    let e4 = upsert(e3, "video"@, seq![binding(seq!["Alt"@], "V"@)]);
    let e5 = upsert(e4, "scroll"@, seq![binding(seq!["Alt"@], "S"@)]);
    let e6 = upsert(e5, "stop_recording"@, seq![binding(Seq::empty(), "Escape"@)]);
    let e7 = upsert(e6, "stop_scroll"@, seq![binding(Seq::empty(), "Escape"@)]);
    upsert(e7, "show_main"@, seq![binding(seq!["Alt"@], "O"@)])
}

/// The configuration of a fresh installation.
pub open spec fn default_config() -> AppConfigView {
    AppConfigView {
        version: "2.0.0"@,
        shortcuts: default_shortcuts(),
        developer_mode: false,
        autostart_enabled: true,
        scroll_capture_enabled: false,
        screenshot_preview_enabled: true,
    }
}

/// A list of the one binding with the given modifiers and key.
fn one_binding(first: Option<&str>, second: Option<&str>, key: &str) -> (list: Vec<ShortcutConfig>)
    ensures
        shortcut_views(list@) == seq![
            binding(
                match (first, second) {
                    (Some(a), Some(b)) => seq![a@, b@],
                    (Some(a), None) => seq![a@],
                    (None, Some(b)) => seq![b@],
                    (None, None) => Seq::empty(),
                },
                key@,
            ),
        ],
{
    let mut modifiers: Vec<String> = Vec::new();
    if let Some(a) = first {
        modifiers.push(String::from_str(a));
    }
    if let Some(b) = second {
        modifiers.push(String::from_str(b));
    }
    let shortcut = ShortcutConfig { modifiers, key: String::from_str(key), enabled: true };
    proof {
        assert(shortcut@.modifiers =~= match (first, second) {
            (Some(a), Some(b)) => seq![a@, b@],
            (Some(a), None) => seq![a@],
            (None, Some(b)) => seq![b@],
            (None, None) => Seq::empty(),
        });
    }
    let mut list: Vec<ShortcutConfig> = Vec::new();
    list.push(shortcut);
    assert(shortcut_views(list@) =~= seq![shortcut@]);
    list
}

impl Default for AppConfig {
    fn default() -> (config: Self)
        ensures
            config@ == default_config(),
    {
        let mut shortcuts = ShortcutTable::new();
        shortcuts.insert(String::from_str("screenshot_static"), one_binding(Some("Alt"), None, "A"));
        shortcuts.insert(
            String::from_str("screenshot"),
            one_binding(Some("Shift"), Some("Alt"), "A"),
        );
        shortcuts.insert(String::from_str("gif"), one_binding(Some("Alt"), None, "G"));
        shortcuts.insert(String::from_str("video"), one_binding(Some("Alt"), None, "V"));
        shortcuts.insert(String::from_str("scroll"), one_binding(Some("Alt"), None, "S"));
        shortcuts.insert(String::from_str("stop_recording"), one_binding(None, None, "Escape"));
        shortcuts.insert(String::from_str("stop_scroll"), one_binding(None, None, "Escape"));
        shortcuts.insert(String::from_str("show_main"), one_binding(Some("Alt"), None, "O"));
        AppConfig {
            version: String::from_str("2.0.0"),
            shortcuts,
            developer_mode: false,
            autostart_enabled: true,
            scroll_capture_enabled: false,
            screenshot_preview_enabled: true,
        }
    }
}

/// The shortcuts of an action, none where it has no entry.
pub open spec fn shortcuts_of(entries: Seq<EntryView>, action: Seq<char>) -> Seq<ShortcutView> {
    match lookup(entries, action) {
        Some(list) => list,
        None => Seq::empty(),
    }
}

/// The entries after a shortcut was added to an action: the action's list
/// with the shortcut at its end, unless the list already holds the binding.
/// An action without an entry gets one.
pub open spec fn with_added(
    entries: Seq<EntryView>,
    action: Seq<char>,
    shortcut: ShortcutView,
) -> Seq<EntryView> {
    let current = shortcuts_of(entries, action);
    if has_binding(current, shortcut) {
        upsert(entries, action, current)
    } else {
        upsert(entries, action, current.push(shortcut))
    }
}

/// The entries after the shortcut at `index` was removed from an action. The
/// last shortcut of an action is never removed, and an index beyond the list
/// or an action without an entry changes nothing.
pub open spec fn with_removed(entries: Seq<EntryView>, action: Seq<char>, index: int) -> Seq<
    EntryView,
> {
    match lookup(entries, action) {
        Some(list) => if 0 <= index < list.len() && list.len() > 1 {
            upsert(entries, action, list.remove(index))
        } else {
            entries
        },
        None => entries,
    }
}

/// Replaces all shortcuts of an action.
pub fn update_shortcuts(config: &mut AppConfig, action: &str, shortcuts: Vec<ShortcutConfig>)
    ensures
        final(config)@ == old(config)@.with_shortcuts(
            upsert(old(config)@.shortcuts, action@, shortcut_views(shortcuts@)),
        ),
{
    config.shortcuts.insert(String::from_str(action), shortcuts);
}

/// Adds a shortcut to an action, unless the action already has the binding.
pub fn add_shortcut(config: &mut AppConfig, action: &str, shortcut: ShortcutConfig)
    ensures
        final(config)@ == old(config)@.with_shortcuts(
            with_added(old(config)@.shortcuts, action@, shortcut@),
        ),
{
    let ghost before = config@.shortcuts;
    let mut list = match config.shortcuts.get(action) {
        Some(current) => {
            if contains_binding(current, &shortcut) {
                proof {
                    let i = action_index(before, action@);
                    assert(before.update(i, EntryView { action: action@, shortcuts: before[i].shortcuts })
                        =~= before);
                }
                return ;
            }
            clone_shortcuts(current)
        },
        None => Vec::new(),
    };
    let ghost current = shortcut_views(list@);
    proof {
        assert(current =~= shortcuts_of(before, action@));
        assert(!has_binding(current, shortcut@));
    }
    list.push(shortcut);
    assert(shortcut_views(list@) =~= current.push(shortcut@));
    config.shortcuts.insert(String::from_str(action), list);
}

/// Removes the shortcut at `index` from an action, unless it is the
/// action's last one.
pub fn remove_shortcut(config: &mut AppConfig, action: &str, index: usize)
    ensures
        final(config)@ == old(config)@.with_shortcuts(
            with_removed(old(config)@.shortcuts, action@, index as int),
        ),
{
    let mut list = match config.shortcuts.get(action) {
        Some(current) => {
            if !(index < current.len() && current.len() > 1) {
                return ;
            }
            clone_shortcuts(current)
        },
        None => {
            return ;
        },
    };
    let ghost current = shortcut_views(list@);
    list.remove(index);
    assert(shortcut_views(list@) =~= current.remove(index as int));
    config.shortcuts.insert(String::from_str(action), list);
}

/// The entries with an entry added, in order, for each of the first `count`
/// default actions that had none.
pub open spec fn with_missing(entries: Seq<EntryView>, defaults: Seq<EntryView>, count: nat) -> Seq<
    EntryView,
>
    decreases count,
{
    if count == 0 {
        entries
    } else {
        let before = with_missing(entries, defaults, (count - 1) as nat);
        let entry = defaults[count - 1];
        if has_action(before, entry.action) {
            before
        } else {
            upsert(before, entry.action, entry.shortcuts)
        }
    }
}

/// Adding missing entries never removes or reorders what was there.
pub proof fn lemma_with_missing_grows(entries: Seq<EntryView>, defaults: Seq<EntryView>, count: nat)
    ensures
        with_missing(entries, defaults, count).len() >= entries.len(),
        with_missing(entries, defaults, count).subrange(0, entries.len() as int) == entries,
    decreases count,
{
    if count > 0 {
        lemma_with_missing_grows(entries, defaults, (count - 1) as nat);
        let before = with_missing(entries, defaults, (count - 1) as nat);
        assert(with_missing(entries, defaults, count).subrange(0, entries.len() as int)
            =~= before.subrange(0, entries.len() as int));
    } else {
        assert(entries.subrange(0, entries.len() as int) =~= entries);
    }
}

/// Gives every default action that has no entry in the configuration the
/// default's shortcuts. Tells whether anything was added.
pub fn merge_missing_shortcuts(config: &mut AppConfig, defaults: &AppConfig) -> (updated: bool)
    ensures
        final(config)@ == old(config)@.with_shortcuts(
            with_missing(old(config)@.shortcuts, defaults@.shortcuts, defaults@.shortcuts.len()),
        ),
        updated == (final(config)@.shortcuts.len() > old(config)@.shortcuts.len()),
{
    let ghost start = config@;
    let mut updated = false;
    let mut i: usize = 0;
    let count = defaults.shortcuts.len();
    while i < count
        invariant
            i <= count,
            count == defaults@.shortcuts.len(),
            config@ == start.with_shortcuts(with_missing(start.shortcuts, defaults@.shortcuts, i as nat)),
            updated == (config@.shortcuts.len() > start.shortcuts.len()),
        decreases count - i,
    {
        proof {
            lemma_with_missing_grows(start.shortcuts, defaults@.shortcuts, i as nat);
        }
        if let Some(entry) = defaults.shortcuts.entry(i) {
            if !config.shortcuts.contains_key(entry.action.as_str()) {
                config.shortcuts.insert(entry.action.clone(), clone_shortcuts(&entry.shortcuts));
                updated = true;
            }
        }
        i += 1;
    }
    updated
}

/// The list with each of the first `count` default bindings that it did not
/// hold added at its end, in order.
pub open spec fn with_missing_bindings(
    list: Seq<ShortcutView>,
    defaults: Seq<ShortcutView>,
    count: nat,
) -> Seq<ShortcutView>
    decreases count,
{
    if count == 0 {
        list
    } else {
        let before = with_missing_bindings(list, defaults, (count - 1) as nat);
        if has_binding(before, defaults[count - 1]) {
            before
        } else {
            before.push(defaults[count - 1])
        }
    }
}

/// Adding missing bindings never shortens the list.
pub proof fn lemma_with_missing_bindings_grows(
    list: Seq<ShortcutView>,
    defaults: Seq<ShortcutView>,
    count: nat,
)
    ensures
        with_missing_bindings(list, defaults, count).len() >= list.len(),
    decreases count,
{
    if count > 0 {
        lemma_with_missing_bindings_grows(list, defaults, (count - 1) as nat);
    }
}

/// The entries after the action that stops a recording was given every
/// default binding that it lacked. Without such an action among the
/// defaults nothing changes.
pub open spec fn with_stop_defaults(entries: Seq<EntryView>, defaults: Seq<EntryView>) -> Seq<
    EntryView,
> {
    match lookup(defaults, "stop_recording"@) {
        None => entries,
        Some(bindings) => upsert(
            entries,
            "stop_recording"@,
            with_missing_bindings(
                shortcuts_of(entries, "stop_recording"@),
                bindings,
                bindings.len(),
            ),
        ),
    }
}

/// Makes sure that the action that stops a recording has all of its default
/// bindings. Tells whether a binding was added.
pub fn ensure_stop_recording_defaults(config: &mut AppConfig, default_config: &AppConfig) -> (updated:
    bool)
    ensures
        final(config)@ == old(config)@.with_shortcuts(
            with_stop_defaults(old(config)@.shortcuts, default_config@.shortcuts),
        ),
        updated == (shortcuts_of(final(config)@.shortcuts, "stop_recording"@).len() > shortcuts_of(
            old(config)@.shortcuts,
            "stop_recording"@,
        ).len()),
{
    let ghost before = config@.shortcuts;
    let bindings = match default_config.shortcuts.get("stop_recording") {
        None => {
            return false;
        },
        Some(bindings) => bindings,
    };
    let mut list = match config.shortcuts.get("stop_recording") {
        Some(current) => clone_shortcuts(current),
        None => Vec::new(),
    };
    let ghost current = shortcut_views(list@);
    assert(current =~= shortcuts_of(before, "stop_recording"@));
    let mut updated = false;
    let mut i: usize = 0;
    while i < bindings.len()
        invariant
            i <= bindings.len(),
            shortcut_views(list@) == with_missing_bindings(
                current,
                shortcut_views(bindings@),
                i as nat,
            ),
            updated == (list@.len() > current.len()),
        decreases bindings.len() - i,
    {
        proof {
            lemma_with_missing_bindings_grows(current, shortcut_views(bindings@), i as nat);
        }
        let ghost so_far = shortcut_views(list@);
        if !contains_binding(&list, &bindings[i]) {
            list.push(bindings[i].clone());
            updated = true;
            assert(shortcut_views(list@) =~= so_far.push(shortcut_views(bindings@)[i as int]));
        }
        i += 1;
    }
    config.shortcuts.insert(String::from_str("stop_recording"), list);
    proof {
        lemma_upsert_lookup(
            before,
            "stop_recording"@,
            with_missing_bindings(current, shortcut_views(bindings@), bindings@.len()),
            "stop_recording"@,
        );
    }
    updated
}

/// A configuration in the first layout, in which every action had one shortcut.
#[derive(Debug)]
pub struct OldAppConfig {
    pub version: String,
    pub shortcuts: Vec<(String, ShortcutConfig)>,
    pub developer_mode: bool,
    pub autostart_enabled: bool,
    pub scroll_capture_enabled: bool,
    pub screenshot_preview_enabled: bool,
}

/// The entries that the first `count` shortcuts of the first layout become:
/// each action gets the list of its one shortcut.
pub open spec fn migrated_entries(old: Seq<(String, ShortcutConfig)>, count: nat) -> Seq<EntryView>
    decreases count,
{
    if count == 0 {
        Seq::empty()
    } else {
        upsert(
            migrated_entries(old, (count - 1) as nat),
            old[count - 1].0@,
            seq![old[count - 1].1@],
        )
    }
}

impl AppConfig {
    /// Brings a configuration of the first layout into the current one: the
    /// version becomes 2.0.0, each action keeps its shortcut as a list of
    /// one, and the switches stay as they were.
    pub fn from_old(old: OldAppConfig) -> (config: AppConfig)
        ensures
            config@ == (AppConfigView {
                version: "2.0.0"@,
                shortcuts: migrated_entries(old.shortcuts@, old.shortcuts@.len()),
                developer_mode: old.developer_mode,
                autostart_enabled: old.autostart_enabled,
                scroll_capture_enabled: old.scroll_capture_enabled,
                screenshot_preview_enabled: old.screenshot_preview_enabled,
            }),
    {
        let mut shortcuts = ShortcutTable::new();
        let mut i: usize = 0;
        while i < old.shortcuts.len()
            invariant
                i <= old.shortcuts.len(),
                shortcuts@ == migrated_entries(old.shortcuts@, i as nat),
            decreases old.shortcuts.len() - i,
        {
            let mut list: Vec<ShortcutConfig> = Vec::new();
            list.push(old.shortcuts[i].1.clone());
            assert(shortcut_views(list@) =~= seq![old.shortcuts@[i as int].1@]);
            shortcuts.insert(old.shortcuts[i].0.clone(), list);
            i += 1;
        }
        AppConfig {
            version: String::from_str("2.0.0"),
            shortcuts,
            developer_mode: old.developer_mode,
            autostart_enabled: old.autostart_enabled,
            scroll_capture_enabled: old.scroll_capture_enabled,
            screenshot_preview_enabled: old.screenshot_preview_enabled,
        }
    }
}

/// What was found where the configuration is stored.
#[derive(Debug)]
pub enum StoredConfig {
    /// Nothing that could be read as a configuration.
    Missing,
    /// A configuration in the first layout.
    Old(OldAppConfig),
    /// A configuration in the current layout.
    Current(AppConfig),
}

/// The entries of a loaded configuration once the defaults are merged in.
pub open spec fn completed(entries: Seq<EntryView>, defaults: Seq<EntryView>) -> Seq<EntryView> {
    with_stop_defaults(with_missing(entries, defaults, defaults.len()), defaults)
}

/// Whether completing a loaded configuration changes it: an entry was
/// added for a default action, or a binding for the stop action.
pub open spec fn needs_saving(entries: Seq<EntryView>, defaults: Seq<EntryView>) -> bool {
    let merged = with_missing(entries, defaults, defaults.len());
    merged.len() > entries.len() || shortcuts_of(
        with_stop_defaults(merged, defaults),
        "stop_recording"@,
    ).len() > shortcuts_of(merged, "stop_recording"@).len()
}

/// Completes what was found in storage: without a stored configuration the
/// default one; else the stored one, migrated if it is in the first layout,
/// with every default action that it lacks and every default binding that
/// its stop action lacks. The flag tells whether the result differs from
/// what is stored and has to be saved: always for a missing or migrated
/// configuration, else where something was added.
pub fn complete_config(stored: StoredConfig) -> (r: (AppConfig, bool))
    ensures
        match stored {
            StoredConfig::Missing => r.0@ == default_config() && r.1,
            StoredConfig::Old(old) => r.0@ == AppConfig::from_old_view(old).with_shortcuts(
                completed(AppConfig::from_old_view(old).shortcuts, default_shortcuts()),
            ) && r.1,
            StoredConfig::Current(config) => r.0@ == config@.with_shortcuts(
                completed(config@.shortcuts, default_shortcuts()),
            ) && r.1 == needs_saving(config@.shortcuts, default_shortcuts()),
        },
{
    let defaults = AppConfig::default();
    match stored {
        StoredConfig::Missing => (defaults, true),
        StoredConfig::Old(old) => {
            let mut config = AppConfig::from_old(old);
            let _ = merge_missing_shortcuts(&mut config, &defaults);
            let _ = ensure_stop_recording_defaults(&mut config, &defaults);
            (config, true)
        },
        StoredConfig::Current(config) => {
            let mut config = config;
            let added = merge_missing_shortcuts(&mut config, &defaults);
            let bound = ensure_stop_recording_defaults(&mut config, &defaults);
            (config, added || bound)
        },
    }
}

impl AppConfig {
    /// The model of what a configuration of the first layout becomes.
    pub open spec fn from_old_view(old: OldAppConfig) -> AppConfigView {
        AppConfigView {
            version: "2.0.0"@,
            shortcuts: migrated_entries(old.shortcuts@, old.shortcuts@.len()),
            developer_mode: old.developer_mode,
            autostart_enabled: old.autostart_enabled,
            scroll_capture_enabled: old.scroll_capture_enabled,
            screenshot_preview_enabled: old.screenshot_preview_enabled,
        }
    }
}

/// Once the defaults are merged in, every default action has an entry.
pub proof fn lemma_missing_covers(merged: Seq<EntryView>, entries: Seq<EntryView>, action: Seq<char>)
    requires
        merged == with_missing(entries, default_shortcuts(), default_shortcuts().len()),
        has_action(default_shortcuts(), action),
    ensures
        has_action(merged, action),
{
    let defaults = default_shortcuts();
    let i = action_index(defaults, action);
    lemma_with_missing_has(entries, defaults, defaults.len(), i);
}

/// After the first `count` default actions were merged in, each of them has
/// an entry.
pub proof fn lemma_with_missing_has(
    entries: Seq<EntryView>,
    defaults: Seq<EntryView>,
    count: nat,
    i: int,
)
    requires
        0 <= i < count <= defaults.len(),
    ensures
        has_action(with_missing(entries, defaults, count), defaults[i].action),
    decreases count,
{
    let before = with_missing(entries, defaults, (count - 1) as nat);
    let after = with_missing(entries, defaults, count);
    let entry = defaults[count - 1];
    if i < count - 1 {
        lemma_with_missing_has(entries, defaults, (count - 1) as nat, i);
        let k = action_index(before, defaults[i].action);
        if !has_action(before, entry.action) {
            assert(after == before.push(EntryView { action: entry.action, shortcuts: entry.shortcuts }));
            assert(after[k] == before[k]);
        }
    } else {
        if !has_action(before, entry.action) {
            let n = before.len() as int;
            assert(after[n].action == entry.action);
        }
    }
}

/// What is refused when a setting is changed.
#[derive(Clone, Copy, Debug, PartialEq, Eq, Structural)]
pub enum ConfigError {
    /// The name is not that of a format for exported image links.
    InvalidFormat,
    /// The name is not that of a position of the watermark.
    InvalidPosition,
}

impl ConfigError {
    /// The text of the message for this error.
    pub open spec fn message_text(self) -> Seq<char> {
        match self {
            ConfigError::InvalidFormat =>
                "Invalid format. Must be 'markdown', 'writing', 'html', or 'url_only'"@,
            ConfigError::InvalidPosition => "Invalid position"@,
        }
    }

    /// A message for the user.
    pub fn message(&self) -> (text: String)
        ensures
            text@ == self.message_text(),
    {
        match self {
            ConfigError::InvalidFormat => String::from_str(
                "Invalid format. Must be 'markdown', 'writing', 'html', or 'url_only'",
            ),
            ConfigError::InvalidPosition => String::from_str("Invalid position"),
        }
    }
}

/// Whether the name is that of a format for exported image links.
pub open spec fn is_export_format(format: Seq<char>) -> bool {
    format == "markdown"@ || format == "writing"@ || format == "html"@ || format == "url_only"@
}

/// Checks the name of a format for exported image links: `markdown`,
/// `writing`, `html` and `url_only` are accepted.
pub fn set_image_export_format(format: &str) -> (r: Result<String, ConfigError>)
    ensures
        is_export_format(format@) ==> r is Ok && r->Ok_0@ == format@,
        !is_export_format(format@) ==> r == Err::<String, ConfigError>(ConfigError::InvalidFormat),
{
    if same_text(format, "markdown") || same_text(format, "writing") || same_text(format, "html")
        || same_text(format, "url_only") {
        Ok(String::from_str(format))
    } else {
        Err(ConfigError::InvalidFormat)
    }
}

/// Where the watermark is put on an exported picture.
#[derive(Clone, Copy, Debug, PartialEq, Eq, Structural)]
pub enum WatermarkPosition {
    /// No watermark is put on the picture.
    Off,
    Brand,
    TopLeft,
    TopRight,
    BottomLeft,
    BottomRight,
}

/// The name of a position of the watermark.
pub open spec fn position_name(position: WatermarkPosition) -> Seq<char> {
    match position {
        WatermarkPosition::Off => "none"@,
        WatermarkPosition::Brand => "brand"@,
        WatermarkPosition::TopLeft => "top_left"@,
        WatermarkPosition::TopRight => "top_right"@,
        WatermarkPosition::BottomLeft => "bottom_left"@,
        WatermarkPosition::BottomRight => "bottom_right"@,
    }
}

/// The position of the watermark with the given name, if it is the name of
/// one.
pub open spec fn position_named(name: Seq<char>) -> Option<WatermarkPosition> {
    if name == "none"@ {
        Some(WatermarkPosition::Off)
    } else if name == "brand"@ {
        Some(WatermarkPosition::Brand)
    } else if name == "top_left"@ {
        Some(WatermarkPosition::TopLeft)
    } else if name == "top_right"@ {
        Some(WatermarkPosition::TopRight)
    } else if name == "bottom_left"@ {
        Some(WatermarkPosition::BottomLeft)
    } else if name == "bottom_right"@ {
        Some(WatermarkPosition::BottomRight)
    } else {
        None
    }
}

/// Gives the name of a position of the watermark.
pub fn get_watermark_position(position: WatermarkPosition) -> (name: String)
    ensures
        name@ == position_name(position),
{
    match position {
        WatermarkPosition::Off => String::from_str("none"),
        WatermarkPosition::Brand => String::from_str("brand"),
        WatermarkPosition::TopLeft => String::from_str("top_left"),
        WatermarkPosition::TopRight => String::from_str("top_right"),
        WatermarkPosition::BottomLeft => String::from_str("bottom_left"),
        WatermarkPosition::BottomRight => String::from_str("bottom_right"),
    }
}

/// Finds the position of the watermark with the given name.
pub fn set_watermark_position(position: &str) -> (r: Result<WatermarkPosition, ConfigError>)
    ensures
        r == match position_named(position@) {
            Some(p) => Ok::<WatermarkPosition, ConfigError>(p),
            None => Err::<WatermarkPosition, ConfigError>(ConfigError::InvalidPosition),
        },
{
    if same_text(position, "none") {
        Ok(WatermarkPosition::Off)
    } else if same_text(position, "brand") {
        Ok(WatermarkPosition::Brand)
    } else if same_text(position, "top_left") {
        Ok(WatermarkPosition::TopLeft)
    } else if same_text(position, "top_right") {
        Ok(WatermarkPosition::TopRight)
    } else if same_text(position, "bottom_left") {
        Ok(WatermarkPosition::BottomLeft)
    } else if same_text(position, "bottom_right") {
        Ok(WatermarkPosition::BottomRight)
    } else {
        Err(ConfigError::InvalidPosition)
    }
}

/// A name that was given to a position is found again as that position.
pub proof fn lemma_position_name_round_trip(position: WatermarkPosition)
    ensures
        position_named(position_name(position)) == Some(position),
{
    reveal_strlit("none");
    reveal_strlit("brand");
    reveal_strlit("top_left");
    reveal_strlit("top_right");
    reveal_strlit("bottom_left");
    reveal_strlit("bottom_right");
    assert("none"@.len() == 4);
    assert("brand"@.len() == 5);
    assert("top_left"@.len() == 8);
    assert("top_right"@.len() == 9);
    assert("bottom_left"@.len() == 11);
    assert("bottom_right"@.len() == 12);
}

/// No character of the text is a plus sign.
pub open spec fn plus_free(text: Seq<char>) -> bool {
    forall|i: int| 0 <= i < text.len() ==> text[i] != '+'
}

/// Appending characters other than the plus sign to a text lengthens its
/// last part and leaves the other parts as they are.
pub proof fn lemma_split_append_plain(text: Seq<char>, tail: Seq<char>)
    requires
        plus_free(tail),
    ensures
        split_plus(text).len() >= 1,
        split_plus(text + tail) == split_plus(text).drop_last().push(
            split_plus(text).last() + tail,
        ),
    decreases tail.len(),
{
    lemma_split_nonempty(text);
    let parts = split_plus(text);
    if tail.len() == 0 {
        assert(text + tail =~= text);
        assert(parts.last() + tail =~= parts.last());
        assert(parts.drop_last().push(parts.last()) =~= parts);
    } else {
        let shorter = tail.drop_last();
        lemma_split_append_plain(text, shorter);
        let whole = text + tail;
        assert(whole.drop_last() =~= text + shorter);
        assert(whole.last() == tail.last());
        let before = split_plus(text + shorter);
        assert(before.drop_last() =~= parts.drop_last());
        assert(before.last().push(tail.last()) =~= parts.last() + tail);
    }
}

/// The parts of modifiers that are each followed by a plus sign are the
/// modifiers and an empty part after the last plus sign.
pub proof fn lemma_split_terminated(parts: Seq<Seq<char>>)
    requires
        forall|i: int| 0 <= i < parts.len() ==> plus_free(#[trigger] parts[i]),
    ensures
        split_plus(plus_terminated(parts)) == parts.push(Seq::empty()),
    decreases parts.len(),
{
    if parts.len() == 0 {
        assert(split_plus(Seq::<char>::empty()) =~= parts.push(Seq::empty()));
    } else {
        let front = parts.drop_last();
        lemma_split_terminated(front);
        let head = plus_terminated(front);
        lemma_split_append_plain(head, parts.last());
        let with_last = head + parts.last();
        assert(split_plus(with_last) =~= front.push(parts.last())) by {
            assert(front.push(Seq::<char>::empty()).drop_last() =~= front);
            assert(Seq::<char>::empty() + parts.last() =~= parts.last());
        }
        assert(front.push(parts.last()) =~= parts);
        let whole = with_last + seq!['+'];
        assert(whole.drop_last() =~= with_last);
        assert(whole.last() == '+');
        assert(plus_terminated(parts) =~= whole);
    }
}

/// Round trip: the text of a shortcut whose modifiers and key hold no plus
/// sign is read back as the same modifiers and key.
pub proof fn lemma_shortcut_text_round_trip(shortcut: ShortcutView)
    requires
        forall|i: int|
            0 <= i < shortcut.modifiers.len() ==> plus_free(#[trigger] shortcut.modifiers[i]),
        plus_free(shortcut.key),
    ensures
        split_plus(shortcut_text(shortcut)) == shortcut.modifiers.push(shortcut.key),
{
    lemma_split_terminated(shortcut.modifiers);
    lemma_split_append_plain(plus_terminated(shortcut.modifiers), shortcut.key);
    let parts = shortcut.modifiers.push(Seq::empty());
    assert(parts.drop_last() =~= shortcut.modifiers);
    assert(Seq::<char>::empty() + shortcut.key =~= shortcut.key);
}

/// No two shortcuts of a list are the same binding.
pub open spec fn distinct_bindings(list: Seq<ShortcutView>) -> bool {
    forall|i: int, j: int|
        0 <= i < list.len() && 0 <= j < list.len() && i != j ==> !same_binding(
            #[trigger] list[i],
            #[trigger] list[j],
        )
}

/// Adding a shortcut never makes a binding occur twice: where the
/// shortcuts of the action were all different bindings, they still are.
pub proof fn lemma_add_keeps_bindings_distinct(
    entries: Seq<EntryView>,
    action: Seq<char>,
    shortcut: ShortcutView,
)
    requires
        distinct_actions(entries),
        distinct_bindings(shortcuts_of(entries, action)),
    ensures
        distinct_actions(with_added(entries, action, shortcut)),
        distinct_bindings(shortcuts_of(with_added(entries, action, shortcut), action)),
        has_binding(shortcuts_of(with_added(entries, action, shortcut), action), shortcut),
{
    let current = shortcuts_of(entries, action);
    if has_binding(current, shortcut) {
        lemma_upsert_lookup(entries, action, current, action);
    } else {
        let longer = current.push(shortcut);
        lemma_upsert_lookup(entries, action, longer, action);
        assert forall|i: int, j: int|
            0 <= i < longer.len() && 0 <= j < longer.len() && i != j implies !same_binding(
            #[trigger] longer[i],
            #[trigger] longer[j],
        ) by {
            if i < current.len() && j < current.len() {
                assert(longer[i] == current[i] && longer[j] == current[j]);
            } else if i < current.len() {
                assert(longer[i] == current[i]);
            } else {
                assert(longer[j] == current[j]);
            }
        }
        assert(same_binding(longer[current.len() as int], shortcut));
    }
}

/// Removing a shortcut leaves at least one: an action that has shortcuts
/// keeps at least one of them, whatever index is given.
pub proof fn lemma_remove_keeps_one(entries: Seq<EntryView>, action: Seq<char>, index: int)
    requires
        distinct_actions(entries),
        shortcuts_of(entries, action).len() >= 1,
    ensures
        shortcuts_of(with_removed(entries, action, index), action).len() >= 1,
        shortcuts_of(with_removed(entries, action, index), action).len() >= shortcuts_of(
            entries,
            action,
        ).len() - 1,
{
    match lookup(entries, action) {
        Some(list) => {
            if 0 <= index < list.len() && list.len() > 1 {
                lemma_upsert_lookup(entries, action, list.remove(index), action);
            }
        },
        None => {},
    }
}

} // verus!
