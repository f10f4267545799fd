//! The shopping list behind the VM's `shop.*` built-ins: its items, the
//! selected item, and the add and edit dialogs that read one line of input
//! at a time. Reading and writing the list file is left to the caller: the
//! state says when the list must be saved, and gives and takes its text.
use vstd::prelude::*;
use crate::ai_opt::{lines, lines_of};
use crate::text::{chars_of, find, find_from, find_of, slice, str_eq, to_string, trim, trim_of};

verus! {

/// An item of the list.
pub struct ShopItem {
    pub name: String,
    pub qty: String,
    pub notes: String,
    pub purchased: bool,
}

/// The mathematical value of an item.
pub struct ItemModel {
    pub name: Seq<char>,
    pub qty: Seq<char>,
    pub notes: Seq<char>,
    pub purchased: bool,
}

impl View for ShopItem {
    type V = ItemModel;

    open spec fn view(&self) -> ItemModel {
        ItemModel { name: self.name@, qty: self.qty@, notes: self.notes@, purchased: self.purchased }
    }
}

/// A dialog in progress: adding an item, or editing the item at `index`;
/// `stage` counts the lines read (name, quantity, notes).
pub enum ShopPending {
    Add { stage: u8, name: String, qty: String, notes: String },
    Edit { index: usize, stage: u8, name: String, qty: String, notes: String },
}

/// The mathematical value of a dialog.
pub enum PendingModel {
    Add { stage: u8, name: Seq<char>, qty: Seq<char>, notes: Seq<char> },
    Edit { index: usize, stage: u8, name: Seq<char>, qty: Seq<char>, notes: Seq<char> },
}

impl View for ShopPending {
    type V = PendingModel;

    open spec fn view(&self) -> PendingModel {
        match self {
            ShopPending::Add { stage, name, qty, notes } => PendingModel::Add {
                stage: *stage,
                name: name@,
                qty: qty@,
                notes: notes@,
            },
            ShopPending::Edit { index, stage, name, qty, notes } => PendingModel::Edit {
                index: *index,
                stage: *stage,
                name: name@,
                qty: qty@,
                notes: notes@,
            },
        }
    }
}

/// The shopping list state.
pub struct ShopState {
    pub path: Option<String>,
    pub items: Vec<ShopItem>,
    pub selected: Option<usize>,
    pub pending: Option<ShopPending>,
    pub status: String,
}

/// The mathematical value of the shopping list state.
pub struct ShopModel {
    pub path: Option<Seq<char>>,
    pub items: Seq<ItemModel>,
    pub selected: Option<usize>,
    pub pending: Option<PendingModel>,
    pub status: Seq<char>,
}

impl View for ShopState {
    type V = ShopModel;

    open spec fn view(&self) -> ShopModel {
        ShopModel {
            path: match self.path {
                Some(p) => Some(p@),
                None => None,
            },
            items: self.items@.map_values(|it: ShopItem| it@),
            selected: self.selected,
            pending: match self.pending {
                Some(p) => Some(p@),
                None => None,
            },
            status: self.status@,
        }
    }
}

// ---------------------------------------------------------------------------
// The dialogs
// ---------------------------------------------------------------------------

/// A line without the `\n` and `\r` characters that end it.
pub open spec fn without_line_end(s: Seq<char>) -> Seq<char>
    decreases s.len(),
{
    if s.len() > 0 && (s.last() == '\n' || s.last() == '\r') {
        without_line_end(s.drop_last())
    } else {
        s
    }
}

/// `s` with a new status.
pub open spec fn with_status(s: ShopModel, status: Seq<char>) -> ShopModel {
    ShopModel { status, ..s }
}

/// A quantity as entered: blank means one.
pub open spec fn qty_or_one(t: Seq<char>) -> Seq<char> {
    if t.len() == 0 { "1"@ } else { t }
}

/// What one line of input does to the list, and whether the list must then
/// be saved. Without a dialog in progress the line is ignored.
pub open spec fn after_line(s: ShopModel, raw: Seq<char>) -> (ShopModel, bool) {
    let t = trim(without_line_end(raw));
    match s.pending {
        None => (s, false),
        Some(PendingModel::Add { stage, name, qty, notes }) => if stage == 0 {
            if t.len() == 0 {
                (with_status(s, "Add: name cannot be empty. Type a name, press Enter"@), false)
            } else {
                (
                    ShopModel {
                        pending: Some(PendingModel::Add { stage: 1, name: t, qty, notes }),
                        status: "Add: type quantity (Enter for 1), press Enter"@,
                        ..s
                    },
                    false,
                )
            }
        } else if stage == 1 {
            (
                ShopModel {
                    pending: Some(PendingModel::Add { stage: 2, name, qty: qty_or_one(t), notes }),
                    status: "Add: type notes (Enter to skip), press Enter"@,
                    ..s
                },
                false,
            )
        } else {
            let name_s = trim(name);
            if name_s.len() == 0 {
                (ShopModel { pending: None, ..s }, false)
            } else {
                let item = ItemModel { name: name_s, qty: qty_or_one(trim(qty)), notes: trim(t), purchased: false };
                (
                    ShopModel {
                        items: s.items.push(item),
                        pending: None,
                        status: "Added: "@ + name_s,
                        ..s
                    },
                    true,
                )
            }
        },
        Some(PendingModel::Edit { index, stage, name, qty, notes }) => if stage == 0 {
            (
                ShopModel {
                    pending: Some(
                        PendingModel::Edit { index, stage: 1, name: if t.len() == 0 { name } else { t }, qty, notes },
                    ),
                    status: "Edit: type new quantity (or blank to keep), press Enter"@,
                    ..s
                },
                false,
            )
        } else if stage == 1 {
            (
                ShopModel {
                    pending: Some(
                        PendingModel::Edit { index, stage: 2, name, qty: if t.len() == 0 { qty } else { t }, notes },
                    ),
                    status: "Edit: type new notes (or blank to keep), press Enter"@,
                    ..s
                },
                false,
            )
        } else {
            let n = if t.len() == 0 { notes } else { t };
            if index < s.items.len() {
                let item = ItemModel { name: trim(name), qty: trim(qty), notes: trim(n), purchased: s.items[index as int].purchased };
                (
                    ShopModel {
                        items: s.items.update(index as int, item),
                        pending: None,
                        status: "Saved edit"@,
                        ..s
                    },
                    true,
                )
            } else {
                (ShopModel { pending: None, status: "Edit: item no longer exists"@, ..s }, false)
            }
        },
    }
}

/// The status shown: `Ready` while none is set.
pub open spec fn shown_status(s: ShopModel) -> Seq<char> {
    if trim(s.status).len() == 0 { "Ready"@ } else { s.status }
}

fn trimmed(s: &str) -> (r: String)
    ensures
        r@ == trim(s@),
{
    to_string(&trim_of(&chars_of(s)))
}

fn without_line_end_of(s: &str) -> (r: String)
    ensures
        r@ == without_line_end(s@),
{
    let v = chars_of(s);
    let mut j: usize = v.len();
    assert(v@.subrange(0, v@.len() as int) =~= v@);
    while j > 0 && (v[j - 1] == '\n' || v[j - 1] == '\r')
        invariant
            j <= v.len(),
            without_line_end(v@) == without_line_end(v@.subrange(0, j as int)),
        decreases j,
    {
        assert(v@.subrange(0, j as int).drop_last() =~= v@.subrange(0, j - 1));
        j = j - 1;
    }
    to_string(&slice(&v, 0, j))
}

impl ShopState {
    /// An empty list with no path, selection or dialog.
    pub fn new() -> (r: Self)
        ensures
            r@.path is None,
            r@.items.len() == 0,
            r@.selected is None,
            r@.pending is None,
            r@.status.len() == 0,
    {
        let r = ShopState { path: None, items: Vec::new(), selected: None, pending: None, status: String::new() };
        assert(r@.items =~= Seq::<ItemModel>::empty());
        r
    }

    /// The path of the list file, set to `default` when none is set yet.
    pub fn ensure_path(&mut self, default: String) -> (r: String)
        ensures
            match old(self)@.path {
                Some(p) => r@ == p && final(self)@ == old(self)@,
                None => r@ == default@ && final(self)@ == (ShopModel { path: Some(default@), ..old(self)@ }),
            },
    {
        match &self.path {
            Some(p) => p.clone(),
            None => {
                let p = default.clone();
                self.path = Some(default);
                p
            },
        }
    }

    /// Selects the item at `index`; an index past the end clears the
    /// selection.
    pub fn select(&mut self, index: usize)
        ensures
            final(self)@ == (ShopModel {
                selected: if index < old(self)@.items.len() { Some(index) } else { None },
                ..old(self)@
            }),
    {
        if index < self.items.len() {
            self.selected = Some(index);
        } else {
            self.selected = None;
        }
    }

    pub fn clear_selection(&mut self)
        ensures
            final(self)@ == (ShopModel { selected: None, ..old(self)@ }),
    {
        self.selected = None;
    }

    pub fn has_selection(&self) -> (r: bool)
        ensures
            r == self@.selected is Some,
    {
        self.selected.is_some()
    }

    /// The selected index, 0 without a selection.
    pub fn selected_index_u32(&self) -> (r: u32)
        ensures
            r == (match self@.selected {
                Some(i) => i,
                None => 0usize,
            }) as u32,
    {
        match self.selected {
            Some(i) => i as u32,
            None => 0,
        }
    }

    pub fn is_pending(&self) -> (r: bool)
        ensures
            r == self@.pending is Some,
    {
        self.pending.is_some()
    }

    /// The status shown: `Ready` while none is set.
    pub fn status(&self) -> (r: String)
        ensures
            r@ == shown_status(self@),
    {
        let t = trimmed(self.status.as_str());
        if t.as_str().is_empty() {
            String::from_str("Ready")
        } else {
            self.status.clone()
        }
    }

    pub fn set_status(&mut self, s: String)
        ensures
            final(self)@ == with_status(old(self)@, s@),
    {
        self.status = s;
    }

    /// Ends the dialog in progress.
    pub fn cancel_pending(&mut self)
        ensures
            final(self)@ == (ShopModel { pending: None, status: "Canceled"@, ..old(self)@ }),
    {
        self.pending = None;
        self.set_status(String::from_str("Canceled"));
    }

    /// Starts the add dialog.
    pub fn begin_add(&mut self)
        ensures
            final(self)@ == (ShopModel {
                pending: Some(PendingModel::Add { stage: 0, name: seq![], qty: seq![], notes: seq![] }),
                status: "Add: type item name in the terminal, press Enter"@,
                ..old(self)@
            }),
    {
        self.pending = Some(ShopPending::Add { stage: 0, name: String::new(), qty: String::new(), notes: String::new() });
        self.set_status(String::from_str("Add: type item name in the terminal, press Enter"));
    }

    /// Starts the edit dialog of the item at `index`, its current values the
    /// defaults; an index past the end only sets the status.
    pub fn begin_edit(&mut self, index: usize)
        ensures
            if index < old(self)@.items.len() {
                let it = old(self)@.items[index as int];
                final(self)@ == (ShopModel {
                    pending: Some(PendingModel::Edit { index, stage: 0, name: it.name, qty: it.qty, notes: it.notes }),
                    status: "Edit: type new name (or blank to keep), press Enter"@,
                    ..old(self)@
                })
            } else {
                final(self)@ == with_status(old(self)@, "Edit: invalid index"@)
            },
    {
        if index >= self.items.len() {
            self.set_status(String::from_str("Edit: invalid index"));
            return;
        }
        let it = &self.items[index];
        let p = ShopPending::Edit { index, stage: 0, name: it.name.clone(), qty: it.qty.clone(), notes: it.notes.clone() };
        self.pending = Some(p);
        self.set_status(String::from_str("Edit: type new name (or blank to keep), press Enter"));
    }

    /// Feeds one line of input to the dialog in progress. The result says
    /// whether the list changed in a way that must be saved.
    pub fn consume_input_line(&mut self, line: &str) -> (r: bool)
        ensures
            (final(self)@, r) == after_line(old(self)@, line@),
    {
        let ghost s0 = self@;
        let t = trimmed(without_line_end_of(line).as_str());
        let p = match self.pending.take() {
            Some(p) => p,
            None => {
                return false;
            },
        };
        match p {
            ShopPending::Add { stage, name, qty, notes } => {
                if stage == 0 {
                    if t.as_str().is_empty() {
                        self.pending = Some(ShopPending::Add { stage, name, qty, notes });
                        self.set_status(String::from_str("Add: name cannot be empty. Type a name, press Enter"));
                    } else {
                        self.pending = Some(ShopPending::Add { stage: 1, name: t, qty, notes });
                        self.set_status(String::from_str("Add: type quantity (Enter for 1), press Enter"));
                    }
                    assert(self@.items == s0.items);
                    false
                } else if stage == 1 {
                    let q = if t.as_str().is_empty() {
                        String::from_str("1")
                    } else {
                        t
                    };
                    self.pending = Some(ShopPending::Add { stage: 2, name, qty: q, notes });
                    self.set_status(String::from_str("Add: type notes (Enter to skip), press Enter"));
                    assert(self@.items == s0.items);
                    false
                } else {
                    let name_s = trimmed(name.as_str());
                    if name_s.as_str().is_empty() {
                        assert(self@.items == s0.items);
                        return false;
                    }
                    let qt = trimmed(qty.as_str());
                    let qty_s = if qt.as_str().is_empty() {
                        String::from_str("1")
                    } else {
                        qt
                    };
                    let notes_s = trimmed(t.as_str());
                    let mut status = String::from_str("Added: ");
                    status.append(name_s.as_str());
                    let ghost items0 = self.items@;
                    self.items.push(ShopItem { name: name_s, qty: qty_s, notes: notes_s, purchased: false });
                    assert(self.items@.map_values(|it: ShopItem| it@) =~= items0.map_values(|it: ShopItem| it@).push(
                        self.items@.last()@,
                    ));
                    self.set_status(status);
                    true
                }
            },
            ShopPending::Edit { index, stage, name, qty, notes } => {
                if stage == 0 {
                    let n = if t.as_str().is_empty() {
                        name
                    } else {
                        t
                    };
                    self.pending = Some(ShopPending::Edit { index, stage: 1, name: n, qty, notes });
                    self.set_status(String::from_str("Edit: type new quantity (or blank to keep), press Enter"));
                    assert(self@.items == s0.items);
                    false
                } else if stage == 1 {
                    let q = if t.as_str().is_empty() {
                        qty
                    } else {
                        t
                    };
                    self.pending = Some(ShopPending::Edit { index, stage: 2, name, qty: q, notes });
                    self.set_status(String::from_str("Edit: type new notes (or blank to keep), press Enter"));
                    assert(self@.items == s0.items);
                    false
                } else {
                    let n = if t.as_str().is_empty() {
                        notes
                    } else {
                        t
                    };
                    if index < self.items.len() {
                        let purchased = self.items[index].purchased;
                        let item = ShopItem {
                            name: trimmed(name.as_str()),
                            qty: trimmed(qty.as_str()),
                            notes: trimmed(n.as_str()),
                            purchased,
                        };
                        let ghost items0 = self.items@;
                        let ghost m = item@;
                        self.items.set(index, item);
                        assert(self.items@.map_values(|it: ShopItem| it@) =~= items0.map_values(|it: ShopItem| it@).update(
                            index as int,
                            m,
                        ));
                        self.set_status(String::from_str("Saved edit"));
                        true
                    } else {
                        self.set_status(String::from_str("Edit: item no longer exists"));
                        assert(self@.items == s0.items);
                        false
                    }
                }
            },
        }
    }
}


// ---------------------------------------------------------------------------
// The list file
// ---------------------------------------------------------------------------

/// A field as written to the list file: line breaks become spaces.
pub open spec fn one_line(s: Seq<char>) -> Seq<char> {
    s.map_values(|c: char| if c == '\n' { ' ' } else { c })
}

/// The line of an item in the list file: name, quantity, notes and `1` or
/// `0` for purchased, separated by tabs.
pub open spec fn item_line(it: ItemModel) -> Seq<char> {
    one_line(it.name) + "\t"@ + one_line(it.qty) + "\t"@ + one_line(it.notes) + "\t"@ + (if it.purchased {
        "1"@
    } else {
        "0"@
    }) + "\n"@
}

/// The text of the list file.
pub open spec fn list_text(items: Seq<ItemModel>) -> Seq<char>
    decreases items.len(),
{
    if items.len() == 0 {
        seq![]
    } else {
        list_text(items.drop_last()) + item_line(items.last())
    }
}

/// `s.splitn(n, '\t')`.
pub open spec fn split_tabs(s: Seq<char>, n: nat) -> Seq<Seq<char>>
    decreases n,
{
    if n <= 1 {
        seq![s]
    } else {
        match find(s, '\t') {
            Some(i) => if 0 <= i < s.len() {
                seq![s.subrange(0, i)] + split_tabs(s.subrange(i + 1, s.len() as int), (n - 1) as nat)
            } else {
                seq![s]
            },
            None => seq![s],
        }
    }
}

/// The words that mark an item purchased.
pub open spec fn purchased_word(p: Seq<char>) -> bool {
    p == "1"@ || p == "true"@ || p == "TRUE"@ || p == "yes"@ || p == "YES"@
}

/// The item a line of the list file gives: none for a blank line or a
/// blank name; a missing quantity is one, missing notes are empty, and a
/// missing flag means not purchased.
pub open spec fn item_of_line(line: Seq<char>) -> Option<ItemModel> {
    let parts = split_tabs(line, 4);
    if trim(line).len() == 0 || trim(parts[0]).len() == 0 {
        None
    } else {
        Some(
            ItemModel {
                name: parts[0],
                qty: if parts.len() > 1 { parts[1] } else { "1"@ },
                notes: if parts.len() > 2 { parts[2] } else { seq![] },
                purchased: purchased_word(if parts.len() > 3 { parts[3] } else { "0"@ }),
            },
        )
    }
}

/// The items of a sequence of lines.
pub open spec fn items_of_lines(ls: Seq<Seq<char>>) -> Seq<ItemModel>
    decreases ls.len(),
{
    if ls.len() == 0 {
        seq![]
    } else {
        let rest = items_of_lines(ls.drop_last());
        match item_of_line(ls.last()) {
            Some(it) => rest.push(it),
            None => rest,
        }
    }
}

/// The items of the text of a list file.
pub open spec fn parse_list(text: Seq<char>) -> Seq<ItemModel> {
    items_of_lines(lines(text))
}

proof fn lemma_split_tabs_len(s: Seq<char>, n: nat)
    ensures
        1 <= split_tabs(s, n).len() <= if n == 0 { 1 } else { n },
    decreases n,
{
    if n > 1 {
        match find(s, '\t') {
            Some(i) => if 0 <= i < s.len() {
                lemma_split_tabs_len(s.subrange(i + 1, s.len() as int), (n - 1) as nat);
            },
            None => {},
        }
    }
}

fn split_tabs_of(s: &Vec<char>, n: usize) -> (r: Vec<Vec<char>>)
    ensures
        r@.len() == split_tabs(s@, n as nat).len(),
        forall|k: int| 0 <= k < r@.len() ==> #[trigger] r@[k]@ == split_tabs(s@, n as nat)[k],
    decreases n,
{
    if n <= 1 {
        return vec![slice(s, 0, s.len())];
    }
    match find_of(s, '\t') {
        Some(i) => {
            let head = slice(s, 0, i);
            let tail = slice(s, i + 1, s.len());
            let rest = split_tabs_of(&tail, n - 1);
            let mut out: Vec<Vec<char>> = vec![head];
            let mut k: usize = 0;
            while k < rest.len()
                invariant
                    k <= rest.len(),
                    out@.len() == k + 1,
                    out@[0]@ == s@.subrange(0, i as int),
                    forall|j: int| 0 <= j < k ==> #[trigger] out@[j + 1]@ == rest@[j]@,
                decreases rest.len() - k,
            {
                out.push(slice(&rest[k], 0, rest[k].len()));
                k = k + 1;
            }
            proof {
                let sp = split_tabs(s@, n as nat);
                assert(sp == seq![s@.subrange(0, i as int)] + split_tabs(tail@, (n - 1) as nat));
                assert forall|j: int| 0 <= j < out@.len() implies #[trigger] out@[j]@ == sp[j] by {
                    if j > 0 {
                        assert(out@[(j - 1) + 1]@ == rest@[j - 1]@);
                    }
                }
            }
            out
        },
        None => vec![slice(s, 0, s.len())],
    }
}

fn purchased_word_of(p: &Vec<char>) -> (r: bool)
    ensures
        r == purchased_word(p@),
{
    let t = to_string(p);
    str_eq(t.as_str(), "1") || str_eq(t.as_str(), "true") || str_eq(t.as_str(), "TRUE") || str_eq(t.as_str(), "yes")
        || str_eq(t.as_str(), "YES")
}

fn item_of_line_of(line: &Vec<char>) -> (r: Option<ShopItem>)
    ensures
        match item_of_line(line@) {
            Some(it) => r matches Some(x) && x@ == it,
            None => r is None,
        },
{
    let parts = split_tabs_of(line, 4);
    proof {
        lemma_split_tabs_len(line@, 4);
    }
    if trim_of(line).len() == 0 || trim_of(&parts[0]).len() == 0 {
        return None;
    }
    let qty = if parts.len() > 1 {
        to_string(&parts[1])
    } else {
        String::from_str("1")
    };
    let notes = if parts.len() > 2 {
        to_string(&parts[2])
    } else {
        String::new()
    };
    let purchased = if parts.len() > 3 {
        purchased_word_of(&parts[3])
    } else {
        proof {
            reveal_strlit("0");
            reveal_strlit("1");
            reveal_strlit("true");
            reveal_strlit("TRUE");
            reveal_strlit("yes");
            reveal_strlit("YES");
            assert("0"@[0] != "1"@[0]);
            assert("true"@.len() != "0"@.len());
            assert("TRUE"@.len() != "0"@.len());
            assert("yes"@.len() != "0"@.len());
            assert("YES"@.len() != "0"@.len());
        }
        false
    };
    Some(ShopItem { name: to_string(&parts[0]), qty, notes, purchased })
}

/// The items of the text of a list file.
pub fn parse_list_text(text: &str) -> (r: Vec<ShopItem>)
    ensures
        r@.map_values(|it: ShopItem| it@) == parse_list(text@),
{
    let ls = lines_of(&chars_of(text));
    let ghost all = lines(text@);
    let mut out: Vec<ShopItem> = Vec::new();
    let mut k: usize = 0;
    while k < ls.len()
        invariant
            k <= ls.len(),
            ls@.len() == all.len(),
            forall|j: int| 0 <= j < ls@.len() ==> #[trigger] ls@[j]@ == all[j],
            out@.map_values(|it: ShopItem| it@) == items_of_lines(all.subrange(0, k as int)),
        decreases ls.len() - k,
    {
        let ghost before = out@.map_values(|it: ShopItem| it@);
        assert(all.subrange(0, k + 1).drop_last() =~= all.subrange(0, k as int));
        assert(all.subrange(0, k + 1).last() == ls@[k as int]@);
        match item_of_line_of(&ls[k]) {
            Some(it) => {
                out.push(it);
                assert(out@.map_values(|it: ShopItem| it@) =~= before.push(out@.last()@));
            },
            None => {},
        }
        k = k + 1;
    }
    assert(all.subrange(0, all.len() as int) =~= all);
    out
}

impl ShopState {
    /// The text of the list file.
    pub fn list_text(&self) -> (r: String)
        ensures
            r@ == list_text(self@.items),
    {
        let mut out: Vec<char> = Vec::new();
        let mut k: usize = 0;
        while k < self.items.len()
            invariant
                k <= self.items.len(),
                out@ == list_text(self@.items.subrange(0, k as int)),
            decreases self.items.len() - k,
        {
            let it = &self.items[k];
            proof {
                assert(self@.items.subrange(0, k + 1).drop_last() =~= self@.items.subrange(0, k as int));
                assert(self@.items.subrange(0, k + 1).last() == it@);
            }
            push_one_line(&mut out, &it.name);
            out.push('\t');
            push_one_line(&mut out, &it.qty);
            out.push('\t');
            push_one_line(&mut out, &it.notes);
            out.push('\t');
            out.push(if it.purchased { '1' } else { '0' });
            out.push('\n');
            proof {
                reveal_strlit("\t");
                reveal_strlit("\n");
                reveal_strlit("1");
                reveal_strlit("0");
                assert(out@ =~= list_text(self@.items.subrange(0, k as int)) + item_line(it@));
            }
            k = k + 1;
        }
        assert(self@.items.subrange(0, self@.items.len() as int) =~= self@.items);
        to_string(&out)
    }

    /// Takes the items of the list file at `path`: `text` is its text, or
    /// `None` where there is no such file (the list is then empty).
    pub fn load_items(&mut self, path: String, text: Option<&str>)
        ensures
            final(self)@ == (ShopModel {
                path: Some(path@),
                items: match text {
                    Some(t) => parse_list(t@),
                    None => seq![],
                },
                ..old(self)@
            }),
    {
        self.path = Some(path);
        match text {
            Some(t) => {
                self.items = parse_list_text(t);
            },
            None => {
                self.items = Vec::new();
                assert(self@.items =~= Seq::<ItemModel>::empty());
            },
        }
    }
}

fn push_one_line(out: &mut Vec<char>, s: &String)
    ensures
        final(out)@ == old(out)@ + one_line(s@),
{
    let v = chars_of(s.as_str());
    let ghost start = out@;
    let mut k: usize = 0;
    while k < v.len()
        invariant
            k <= v.len(),
            v@ == s@,
            out@ == start + one_line(v@.subrange(0, k as int)),
        decreases v.len() - k,
    {
        out.push(if v[k] == '\n' { ' ' } else { v[k] });
        assert(one_line(v@.subrange(0, k + 1)) =~= one_line(v@.subrange(0, k as int)).push(
            if v@[k as int] == '\n' { ' ' } else { v@[k as int] },
        ));
        k = k + 1;
    }
    assert(v@.subrange(0, v@.len() as int) =~= v@);
}


// ---------------------------------------------------------------------------
// Laws
// ---------------------------------------------------------------------------

/// The state right after the add dialog starts.
pub open spec fn adding(s: ShopModel) -> ShopModel {
    ShopModel {
        pending: Some(PendingModel::Add { stage: 0, name: seq![], qty: seq![], notes: seq![] }),
        status: "Add: type item name in the terminal, press Enter"@,
        ..s
    }
}

/// The state right after the edit dialog of the item at `index` starts.
pub open spec fn editing(s: ShopModel, index: usize) -> ShopModel {
    let it = s.items[index as int];
    ShopModel {
        pending: Some(PendingModel::Edit { index, stage: 0, name: it.name, qty: it.qty, notes: it.notes }),
        status: "Edit: type new name (or blank to keep), press Enter"@,
        ..s
    }
}

/// The add dialog, given a name that is not blank, a quantity and notes,
/// appends exactly one item, not purchased, with the trimmed entries (a
/// blank quantity is one), ends, and asks for the list to be saved.
pub proof fn law_add_dialog_appends_one_item(s: ShopModel, l1: Seq<char>, l2: Seq<char>, l3: Seq<char>)
    requires
        trim(without_line_end(l1)).len() > 0,
    ensures
        ({
            let (s1, _) = after_line(adding(s), l1);
            let (s2, _) = after_line(s1, l2);
            let (s3, save) = after_line(s2, l3);
            &&& s3.items == s.items.push(
                ItemModel {
                    name: trim(without_line_end(l1)),
                    qty: qty_or_one(trim(without_line_end(l2))),
                    notes: trim(without_line_end(l3)),
                    purchased: false,
                },
            )
            &&& s3.pending is None
            &&& save
        }),
{
    crate::text::lemma_trim_idempotent(without_line_end(l1));
    crate::text::lemma_trim_idempotent(without_line_end(l2));
    crate::text::lemma_trim_idempotent(without_line_end(l3));
    let t2 = trim(without_line_end(l2));
    if t2.len() == 0 {
        reveal_strlit("1");
        assert(trim("1"@) =~= "1"@) by {
            assert("1"@[0] == '1');
            assert(!crate::text::is_ws('1'));
            assert(crate::text::skip_ws("1"@, 0) == 0);
            assert(crate::text::trim_start("1"@) =~= "1"@);
            assert(crate::text::back_ws("1"@, 1) == 1);
        }
    }
}

/// The edit dialog of an item changes that item alone, keeps whether it
/// was purchased, and leaves as many items as before.
pub proof fn law_edit_dialog_changes_one_item(
    s: ShopModel,
    index: usize,
    l1: Seq<char>,
    l2: Seq<char>,
    l3: Seq<char>,
)
    requires
        index < s.items.len(),
    ensures
        ({
            let (s1, _) = after_line(editing(s, index), l1);
            let (s2, _) = after_line(s1, l2);
            let (s3, save) = after_line(s2, l3);
            &&& s3.items.len() == s.items.len()
            &&& forall|j: int| 0 <= j < s.items.len() && j != index ==> #[trigger] s3.items[j] == s.items[j]
            &&& s3.items[index as int].purchased == s.items[index as int].purchased
            &&& s3.pending is None
            &&& save
        }),
{
}


// ---------------------------------------------------------------------------
// Saving and loading back
// ---------------------------------------------------------------------------

/// A field that fits in the list file: no tab and no line break.
pub open spec fn plain_field(s: Seq<char>) -> bool {
    forall|k: int| 0 <= k < s.len() ==> s[k] != '\t' && s[k] != '\n'
}

/// An item that the list file keeps as it is: plain fields and a name that
/// is not blank.
pub open spec fn storable(it: ItemModel) -> bool {
    &&& plain_field(it.name)
    &&& plain_field(it.qty)
    &&& plain_field(it.notes)
    &&& trim(it.name).len() > 0
}

/// The flag written for `purchased`.
pub open spec fn flag(purchased: bool) -> Seq<char> {
    if purchased { "1"@ } else { "0"@ }
}

/// The line of an item without its line break.
pub open spec fn item_body(it: ItemModel) -> Seq<char> {
    it.name + "\t"@ + it.qty + "\t"@ + it.notes + "\t"@ + flag(it.purchased)
}

proof fn lemma_find_first(s: Seq<char>, c: char, i: int, k: int)
    requires
        0 <= i <= k < s.len(),
        s[k] == c,
        forall|j: int| i <= j < k ==> s[j] != c,
    ensures
        find_from(s, c, i) == Some(k),
    decreases k - i,
{
    if i < k {
        lemma_find_first(s, c, i + 1, k);
    }
}

proof fn lemma_find_in_prefix(a: Seq<char>, b: Seq<char>, c: char, i: int, k: int)
    requires
        0 <= i <= k < a.len(),
        a[k] == c,
    ensures
        find_from(a + b, c, i) == find_from(a, c, i),
        find_from(a, c, i) is Some,
    decreases k - i,
{
    assert((a + b)[i] == a[i]);
    if a[i] != c {
        lemma_find_in_prefix(a, b, c, i + 1, k);
    }
}

proof fn lemma_find_shift(a: Seq<char>, b: Seq<char>, c: char, i: int)
    requires
        0 <= i,
    ensures
        find_from(a + b, c, a.len() + i) == (match find_from(b, c, i) {
            Some(k) => Some(k + a.len()),
            None => None,
        }),
    decreases b.len() - i,
{
    if i < b.len() {
        assert((a + b)[a.len() + i] == b[i]);
        if b[i] != c {
            lemma_find_shift(a, b, c, i + 1);
        }
    }
}

proof fn lemma_lines_shift(a: Seq<char>, b: Seq<char>, i: int)
    requires
        0 <= i,
    ensures
        crate::ai_opt::lines_from(a + b, a.len() + i) == crate::ai_opt::lines_from(b, i),
    decreases b.len() - i,
{
    if i < b.len() {
        lemma_find_shift(a, b, '\n', i);
        crate::text::lemma_find_from(b, '\n', i);
        match find_from(b, '\n', i) {
            Some(e) => {
                lemma_lines_shift(a, b, e + 1);
                assert((a + b).subrange(a.len() + i, a.len() + e) =~= b.subrange(i, e));
            },
            None => {
                assert((a + b).subrange(a.len() + i, (a + b).len() as int) =~= b.subrange(i, b.len() as int));
            },
        }
    }
}

proof fn lemma_lines_append(a: Seq<char>, b: Seq<char>, i: int)
    requires
        0 <= i <= a.len(),
        a.len() == 0 || a.last() == '\n',
    ensures
        crate::ai_opt::lines_from(a + b, i) == crate::ai_opt::lines_from(a, i) + lines(b),
    decreases a.len() - i,
{
    if i == a.len() {
        lemma_lines_shift(a, b, 0);
        assert(crate::ai_opt::lines_from(a, i) =~= Seq::<Seq<char>>::empty());
        assert(Seq::<Seq<char>>::empty() + lines(b) =~= lines(b));
    } else {
        lemma_find_in_prefix(a, b, '\n', i, a.len() - 1);
        crate::text::lemma_find_from(a, '\n', i);
        let e = find_from(a, '\n', i)->0;
        lemma_lines_append(a, b, e + 1);
        assert((a + b).subrange(i, e) =~= a.subrange(i, e));
        let x = crate::ai_opt::strip_cr(a.subrange(i, e));
        assert(seq![x] + (crate::ai_opt::lines_from(a, e + 1) + lines(b)) =~= (seq![x] + crate::ai_opt::lines_from(
            a,
            e + 1,
        )) + lines(b));
    }
}

proof fn lemma_one_line_plain(s: Seq<char>)
    requires
        plain_field(s),
    ensures
        one_line(s) == s,
{
    assert(one_line(s) =~= s);
}

proof fn lemma_body_no_newline(it: ItemModel)
    requires
        storable(it),
    ensures
        forall|k: int| 0 <= k < item_body(it).len() ==> item_body(it)[k] != '\n',
        item_body(it).len() > 0,
        item_body(it).last() != '\r',
        item_line(it) == item_body(it) + "\n"@,
{
    reveal_strlit("\t");
    reveal_strlit("1");
    reveal_strlit("0");
    reveal_strlit("\n");
    lemma_one_line_plain(it.name);
    lemma_one_line_plain(it.qty);
    lemma_one_line_plain(it.notes);
    let b = item_body(it);
    assert forall|k: int| 0 <= k < b.len() implies b[k] != '\n' by {
        let n = it.name.len();
        let q = it.qty.len();
        let m = it.notes.len();
        if k < n {
            assert(b[k] == it.name[k]);
        } else if k == n {
        } else if k < n + 1 + q {
            assert(b[k] == it.qty[k - n - 1]);
        } else if k == n + 1 + q {
        } else if k < n + 2 + q + m {
            assert(b[k] == it.notes[k - n - 2 - q]);
        } else {
        }
    }
    assert(b.last() == flag(it.purchased)[0]);
}

proof fn lemma_lines_of_item(it: ItemModel)
    requires
        storable(it),
    ensures
        lines(item_line(it)) == seq![item_body(it)],
{
    lemma_body_no_newline(it);
    let l = item_line(it);
    let b = item_body(it);
    reveal_strlit("\n");
    assert(l.len() == b.len() + 1);
    assert forall|j: int| 0 <= j < b.len() implies l[j] != '\n' by {
        assert(l[j] == b[j]);
    }
    lemma_find_first(l, '\n', 0, b.len() as int);
    assert(l.subrange(0, b.len() as int) =~= b);
    assert(crate::ai_opt::lines_from(l, l.len() as int) =~= Seq::<Seq<char>>::empty());
}

proof fn lemma_trim_nonempty(s: Seq<char>, k: int)
    requires
        0 <= k < s.len(),
        !crate::text::is_ws(s[k]),
    ensures
        trim(s).len() > 0,
{
    lemma_skip_ws_upto(s, 0, k);
    crate::text::lemma_skip_ws_bounds(s, 0);
    let a = crate::text::skip_ws(s, 0);
    let t = crate::text::trim_start(s);
    assert(t[k - a] == s[k]);
    lemma_back_ws_above(t, t.len() as int, k - a);
    crate::text::lemma_back_ws_bounds(t, t.len() as int);
}

proof fn lemma_skip_ws_upto(s: Seq<char>, i: int, k: int)
    requires
        0 <= i <= k < s.len(),
        !crate::text::is_ws(s[k]),
    ensures
        crate::text::skip_ws(s, i) <= k,
    decreases k - i,
{
    if i < k && crate::text::is_ws(s[i]) {
        lemma_skip_ws_upto(s, i + 1, k);
    }
}

proof fn lemma_back_ws_above(t: Seq<char>, j: int, m: int)
    requires
        0 <= m < j <= t.len(),
        !crate::text::is_ws(t[m]),
    ensures
        crate::text::back_ws(t, j) > m,
    decreases j,
{
    if crate::text::is_ws(t[j - 1]) {
        lemma_back_ws_above(t, j - 1, m);
    }
}

proof fn lemma_trim_has_char(s: Seq<char>) -> (k: int)
    requires
        trim(s).len() > 0,
    ensures
        0 <= k < s.len(),
        !crate::text::is_ws(s[k]),
{
    crate::text::lemma_skip_ws_bounds(s, 0);
    crate::text::lemma_skip_ws_stops(s, 0);
    crate::text::skip_ws(s, 0)
}

proof fn lemma_split_item(it: ItemModel)
    requires
        storable(it),
    ensures
        split_tabs(item_body(it), 4) == seq![it.name, it.qty, it.notes, flag(it.purchased)],
{
    reveal_strlit("\t");
    reveal_strlit("1");
    reveal_strlit("0");
    let f = flag(it.purchased);
    let r3 = it.notes + "\t"@ + f;
    let r2 = it.qty + "\t"@ + r3;
    let b = item_body(it);
    assert(b =~= it.name + "\t"@ + r2);
    // the first tab ends the name
    assert forall|j: int| 0 <= j < it.name.len() implies b[j] != '\t' by {
        assert(b[j] == it.name[j]);
    }
    assert(b[it.name.len() as int] == '\t');
    lemma_find_first(b, '\t', 0, it.name.len() as int);
    assert(b.subrange(0, it.name.len() as int) =~= it.name);
    assert(b.subrange(it.name.len() + 1int, b.len() as int) =~= r2);
    // then the quantity
    assert forall|j: int| 0 <= j < it.qty.len() implies r2[j] != '\t' by {
        assert(r2[j] == it.qty[j]);
    }
    lemma_find_first(r2, '\t', 0, it.qty.len() as int);
    assert(r2.subrange(0, it.qty.len() as int) =~= it.qty);
    assert(r2.subrange(it.qty.len() + 1int, r2.len() as int) =~= r3);
    // then the notes
    assert forall|j: int| 0 <= j < it.notes.len() implies r3[j] != '\t' by {
        assert(r3[j] == it.notes[j]);
    }
    lemma_find_first(r3, '\t', 0, it.notes.len() as int);
    assert(r3.subrange(0, it.notes.len() as int) =~= it.notes);
    assert(r3.subrange(it.notes.len() + 1int, r3.len() as int) =~= f);
    assert(split_tabs(f, 1) == seq![f]);
    assert(split_tabs(r3, 2) =~= seq![it.notes, f]);
    assert(split_tabs(r2, 3) =~= seq![it.qty, it.notes, f]);
    assert(split_tabs(b, 4) =~= seq![it.name, it.qty, it.notes, f]);
}

proof fn lemma_item_roundtrip(it: ItemModel)
    requires
        storable(it),
    ensures
        item_of_line(item_body(it)) == Some(it),
{
    lemma_split_item(it);
    let k = lemma_trim_has_char(it.name);
    assert(item_body(it)[k] == it.name[k]);
    lemma_trim_nonempty(item_body(it), k);
    reveal_strlit("1");
    reveal_strlit("0");
    reveal_strlit("true");
    reveal_strlit("TRUE");
    reveal_strlit("yes");
    reveal_strlit("YES");
    assert("0"@[0] != "1"@[0]);
    assert("true"@.len() != "0"@.len());
    assert("TRUE"@.len() != "0"@.len());
    assert("yes"@.len() != "0"@.len());
    assert("YES"@.len() != "0"@.len());
}

/// What is saved loads back: the text of a list whose items are storable
/// parses to the same items.
pub proof fn law_saved_list_loads_back(items: Seq<ItemModel>)
    requires
        forall|i: int| 0 <= i < items.len() ==> #[trigger] storable(items[i]),
    ensures
        parse_list(list_text(items)) == items,
    decreases items.len(),
{
    if items.len() == 0 {
        assert(lines(seq![]) =~= Seq::<Seq<char>>::empty());
        assert(items =~= seq![]);
    } else {
        let pre = items.drop_last();
        let it = items.last();
        assert(storable(items[items.len() - 1]));
        law_saved_list_loads_back(pre);
        lemma_list_text_ends(pre);
        lemma_lines_append(list_text(pre), item_line(it), 0);
        lemma_lines_of_item(it);
        lemma_item_roundtrip(it);
        let ls = lines(list_text(items));
        assert(ls == lines(list_text(pre)).push(item_body(it)));
        assert(ls.drop_last() =~= lines(list_text(pre)));
        assert(items =~= pre.push(it));
    }
}

proof fn lemma_list_text_ends(items: Seq<ItemModel>)
    ensures
        list_text(items).len() == 0 || list_text(items).last() == '\n',
    decreases items.len(),
{
    if items.len() > 0 {
        reveal_strlit("\n");
        let l = item_line(items.last());
        assert(l.last() == '\n');
    }
}

} // verus!

