//! The list sub-parser: a List block's content lines become list items.
//!
//! The count of leading dashes sets an item's level.  Only one current item
//! is tracked: a deeper item becomes its child, an item at the same or a
//! shallower level closes it, and a dash-less line continues it.

use vstd::prelude::*;
use crate::ast::{
    Block, ListItem, ListItemType, ListType, item_view, items_view, lemma_items_view_push,
};
use crate::error::ParseResult;
use crate::model::{AttrV, BlockV, ItemTypeV, ItemV, ListTypeV, lookup};
use crate::text::{
    chars_of, eq_str, has_prefix, has_prefix_str, lines_spec, run_of, run_of_exec, scan_to2,
    scan_to2_exec, split_lines, string_of, subvec, trim_of, trim_spec,
};

verus! {

/// The list kind a block's `type` attribute selects; `unordered` is the
/// default and the fallback for unknown values.
pub open spec fn list_kind_spec(attrs: Seq<AttrV>) -> ListTypeV {
    match lookup(attrs, "type"@) {
        Some(v) => {
            if v == "ordered"@ {
                ListTypeV::Ordered
            } else if v == "check"@ {
                ListTypeV::Check
            } else if v == "definition"@ {
                ListTypeV::Definition
            } else {
                ListTypeV::Unordered
            }
        },
        None => ListTypeV::Unordered,
    }
}

/// The item a dashed line introduces: the text after the dashes is trimmed,
/// then classified by its check-box prefix, or split at the first `": "`
/// when the list kind is definition.
pub open spec fn item_of_line(line: Seq<char>, level: int, kind: ListTypeV) -> ItemV {
    let rest = trim_spec(line.subrange(level, line.len() as int));
    let t = scan_to2(rest, 0, ':', ' ');
    if has_prefix(rest, "[x] "@) || has_prefix(rest, "[X] "@) {
        ItemV {
            item_type: ItemTypeV::Checked,
            content: rest.subrange(4, rest.len() as int),
            children: Seq::empty(),
            level: level as nat,
        }
    } else if has_prefix(rest, "[ ] "@) {
        ItemV {
            item_type: ItemTypeV::Unchecked,
            content: rest.subrange(4, rest.len() as int),
            children: Seq::empty(),
            level: level as nat,
        }
    } else if kind == ListTypeV::Definition && t < rest.len() {
        ItemV {
            item_type: ItemTypeV::Definition { term: rest.subrange(0, t) },
            content: rest.subrange(t + 2, rest.len() as int),
            children: Seq::empty(),
            level: level as nat,
        }
    } else {
        ItemV {
            item_type: ItemTypeV::Unchecked,
            content: rest,
            children: Seq::empty(),
            level: level as nat,
        }
    }
}

/// One step of the single-current-item machine over one content line.
pub open spec fn list_step(
    st: (Seq<ItemV>, Option<ItemV>, nat),
    line: Seq<char>,
    kind: ListTypeV,
) -> (Seq<ItemV>, Option<ItemV>, nat) {
    if trim_spec(line).len() == 0 {
        st
    } else {
        let level = run_of(line, 0, '-');
        if level > 0 {
            let ni = item_of_line(line, level, kind);
            if level > st.2 {
                match st.1 {
                    Some(cur) => (
                        st.0,
                        Some(ItemV { children: cur.children.push(ni), ..cur }),
                        level as nat,
                    ),
                    None => (st.0, None, level as nat),
                }
            } else {
                match st.1 {
                    Some(cur) => (st.0.push(cur), Some(ni), level as nat),
                    None => (st.0, Some(ni), level as nat),
                }
            }
        } else {
            match st.1 {
                Some(cur) => (
                    st.0,
                    Some(
                        ItemV {
                            content: if cur.content.len() == 0 {
                                line
                            } else {
                                cur.content + seq!['\n'] + line
                            },
                            ..cur
                        },
                    ),
                    st.2,
                ),
                None => st,
            }
        }
    }
}

/// The machine folded over the content lines from index `i` on.
pub open spec fn list_fold(
    st: (Seq<ItemV>, Option<ItemV>, nat),
    lines: Seq<Seq<char>>,
    i: int,
    kind: ListTypeV,
) -> (Seq<ItemV>, Option<ItemV>, nat)
    decreases lines.len() - i,
{
    if i < 0 || i >= lines.len() {
        st
    } else {
        list_fold(list_step(st, lines[i], kind), lines, i + 1, kind)
    }
}

/// The list items of a List block: the fold's output items plus the still
/// open current item.
pub open spec fn list_items_spec(content: Seq<char>, attrs: Seq<AttrV>) -> Seq<ItemV> {
    let kind = list_kind_spec(attrs);
    let st = list_fold((Seq::empty(), None, 0nat), lines_spec(content), 0, kind);
    st.0 + (match st.1 {
        Some(c) => seq![c],
        None => Seq::<ItemV>::empty(),
    })
}

/// The view of an optional current item.
pub open spec fn opt_item_view(o: Option<ListItem>) -> Option<ItemV> {
    match o {
        Some(it) => Some(item_view(it)),
        None => None,
    }
}

fn item_of_line_exec(line: &[char], level: usize, kind: &ListType) -> (r: ListItem)
    requires
        level <= line@.len(),
    ensures
        r@ == item_of_line(line@, level as int, kind@),
{
    let rest = trim_of(subvec(line, level, line.len()).as_slice());
    let rv = rest.as_slice();
    let n = rest.len();
    if has_prefix_str(rv, "[x] ") || has_prefix_str(rv, "[X] ") {
        proof {
            reveal_strlit("[x] ");
            reveal_strlit("[X] ");
        }
        ListItem {
            item_type: ListItemType::Checked,
            content: string_of(subvec(rv, 4, n).as_slice()),
            children: Vec::new(),
            level,
        }
    } else if has_prefix_str(rv, "[ ] ") {
        proof {
            reveal_strlit("[ ] ");
        }
        ListItem {
            item_type: ListItemType::Unchecked,
            content: string_of(subvec(rv, 4, n).as_slice()),
            children: Vec::new(),
            level,
        }
    } else {
        let is_def = match kind {
            ListType::Definition => true,
            _ => false,
        };
        let t = scan_to2_exec(rv, 0, ':', ' ');
        proof {
            crate::text::lemma_scan_to2_bounds(rv@, 0, ':', ' ');
        }
        if is_def && t < n {
            ListItem {
                item_type: ListItemType::Definition { term: string_of(subvec(rv, 0, t).as_slice()) },
                content: string_of(subvec(rv, t + 2, n).as_slice()),
                children: Vec::new(),
                level,
            }
        } else {
            ListItem {
                item_type: ListItemType::Unchecked,
                content: string_of(rv),
                children: Vec::new(),
                level,
            }
        }
    }
}

impl Block {
    /// Derive the list items from this block's content; empty content
    /// leaves the block untouched.
    #[verifier::loop_isolation(false)]
    pub fn parse_list_items(&mut self) -> (r: ParseResult<()>)
        ensures
            r is Ok,
            old(self)@.content.len() == 0 ==> final (self)@ == old(self)@,
            old(self)@.content.len() > 0 ==> final (self)@ == (BlockV {
                list_items: list_items_spec(old(self)@.content, old(self)@.attributes),
                ..old(self)@
            }),
    {
        if self.content.as_str().is_empty() {
            return Ok(());
        }
        let kind = match self.get_attribute("type") {
            Some(v) => {
                let vc = chars_of(v);
                if eq_str(vc.as_slice(), "ordered") {
                    ListType::Ordered
                } else if eq_str(vc.as_slice(), "check") {
                    ListType::Check
                } else if eq_str(vc.as_slice(), "definition") {
                    ListType::Definition
                } else {
                    ListType::Unordered
                }
            },
            None => ListType::Unordered,
        };
        proof {
            assert(kind@ == list_kind_spec(self@.attributes));
        }
        let cv = chars_of(self.content.as_str());
        let lines = split_lines(cv.as_slice());
        let ghost ls = crate::text::seqs_of(lines@);
        let ghost kv = kind@;
        let ghost st0: (Seq<ItemV>, Option<ItemV>, nat) = (Seq::empty(), None, 0nat);
        let ghost fin = list_fold(st0, ls, 0, kv);
        let mut items: Vec<ListItem> = Vec::new();
        let mut current: Option<ListItem> = None;
        let mut current_level: usize = 0;
        let mut i: usize = 0;
        while i < lines.len()
            invariant
                i <= lines@.len(),
                ls == crate::text::seqs_of(lines@),
                forall|j: int| 0 <= j < lines@.len() ==> ls[j] == (#[trigger] lines@[j])@,
                fin == list_fold(st0, ls, 0, kv),
                fin == list_fold(
                    (items_view(items@), opt_item_view(current), current_level as nat),
                    ls,
                    i as int,
                    kv,
                ),
            decreases lines@.len() - i,
        {
            let ghost stv = (items_view(items@), opt_item_view(current), current_level as nat);
            let line = &lines[i];
            let lv = line.as_slice();
            let t = trim_of(lv);
            if t.len() == 0 {
                proof {
                    assert(list_step(stv, ls[i as int], kv) == stv);
                }
                i = i + 1;
                continue ;
            }
            let level = run_of_exec(lv, 0, '-');
            if level > 0 {
                let ni = item_of_line_exec(lv, level, &kind);
                if level > current_level {
                    current = match current {
                        Some(mut cur) => {
                            let ghost cv0 = item_view(cur);
                            let ghost snap = cur.children@;
                            let ghost niv = ni;
                            cur.children.push(ni);
                            proof {
                                lemma_items_view_push(snap, niv);
                                assert(item_view(cur) =~= (ItemV {
                                    children: cv0.children.push(item_view(niv)),
                                    ..cv0
                                }));
                            }
                            Some(cur)
                        },
                        None => None,
                    };
                } else {
                    match current {
                        Some(cur) => {
                            let ghost snap = items@;
                            let ghost curv = cur;
                            items.push(cur);
                            proof {
                                lemma_items_view_push(snap, curv);
                            }
                        },
                        None => {},
                    }
                    current = Some(ni);
                }
                current_level = level;
            } else {
                current = match current {
                    Some(mut cur) => {
                        let ghost cv0 = item_view(cur);
                        if !cur.content.as_str().is_empty() {
                            crate::text::push_char(&mut cur.content, '\n');
                            crate::text::append_chars(&mut cur.content, lv);
                        } else {
                            crate::text::append_chars(&mut cur.content, lv);
                        }
                        proof {
                            assert(item_view(cur) =~= (ItemV {
                                content: if cv0.content.len() == 0 {
                                    ls[i as int]
                                } else {
                                    cv0.content + seq!['\n'] + ls[i as int]
                                },
                                ..cv0
                            }));
                        }
                        Some(cur)
                    },
                    None => None,
                };
            }
            proof {
                assert(list_step(stv, ls[i as int], kv) == (
                    items_view(items@),
                    opt_item_view(current),
                    current_level as nat,
                ));
            }
            i = i + 1;
        }
        match current {
            Some(cur) => {
                let ghost snap = items@;
                let ghost curv = cur;
                items.push(cur);
                proof {
                    lemma_items_view_push(snap, curv);
                }
            },
            None => {},
        }
        proof {
            assert(items_view(items@) =~= list_items_spec(old(self)@.content, old(self)@.attributes));
        }
        self.list_items = items;
        proof {
            assert(self@ =~= (BlockV {
                list_items: list_items_spec(old(self)@.content, old(self)@.attributes),
                ..old(self)@
            }));
        }
        Ok(())
    }
}

} // verus!
