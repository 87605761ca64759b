//! The stack of open elements of an HTML tree builder.
//!
//! The bottom of the stack is the first item, the current node is the last.

use vstd::prelude::*;

use crate::node::{is_html_named, str_eq, Namespace, Node};
use crate::scope::{
    has_in_select_scope, has_in_specific_scope, has_node_in_specific_scope,
    is_scope_marker_node, is_select_scope_exception_node, node_pops, popped_while, pops,
    PopRule, ScopeList,
};

verus! {

/// `n` is an HTML `template` element.
pub open spec fn is_template(n: Node) -> bool {
    is_html_named(n, "template"@)
}

/// The number of HTML `template` elements in `s`.
pub open spec fn template_count(s: Seq<Node>) -> nat
    decreases s.len(),
{
    if s.len() == 0 {
        0
    } else {
        template_count(s.drop_last()) + if is_template(s.last()) {
            1nat
        } else {
            0nat
        }
    }
}

/// `s` holds an HTML `template` element.
pub open spec fn has_template(s: Seq<Node>) -> bool {
    exists|i: int| 0 <= i < s.len() && is_template(#[trigger] s[i])
}

proof fn lemma_template_count_append(a: Seq<Node>, b: Seq<Node>)
    ensures
        template_count(a + b) == template_count(a) + template_count(b),
    decreases b.len(),
{
    if b.len() == 0 {
        assert(a + b =~= a);
    } else {
        lemma_template_count_append(a, b.drop_last());
        assert((a + b).drop_last() =~= a + b.drop_last());
    }
}

proof fn lemma_template_count_single(x: Node)
    ensures
        template_count(seq![x]) == if is_template(x) {
            1nat
        } else {
            0nat
        },
{
    assert(seq![x].drop_last() =~= Seq::<Node>::empty());
    assert(template_count(Seq::<Node>::empty()) == 0);
    assert(seq![x].last() == x);
}

proof fn lemma_template_count_le_len(s: Seq<Node>)
    ensures
        template_count(s) <= s.len(),
    decreases s.len(),
{
    if s.len() > 0 {
        lemma_template_count_le_len(s.drop_last());
    }
}

proof fn lemma_template_count_positive(s: Seq<Node>)
    ensures
        template_count(s) > 0 <==> has_template(s),
    decreases s.len(),
{
    if s.len() > 0 {
        let d = s.drop_last();
        lemma_template_count_positive(d);
        if has_template(d) {
            let i = choose|i: int| 0 <= i < d.len() && is_template(#[trigger] d[i]);
            assert(s[i] == d[i]);
        }
        if has_template(s) {
            let i = choose|i: int| 0 <= i < s.len() && is_template(#[trigger] s[i]);
            if i < s.len() - 1 {
                assert(d[i] == s[i]);
            }
        }
        if is_template(s.last()) {
            assert(is_template(s[s.len() - 1]));
        }
    }
}

/// The count of templates after `x` replaces the item at `i`.
proof fn lemma_template_count_update(s: Seq<Node>, i: int, x: Node)
    requires
        0 <= i < s.len(),
    ensures
        template_count(s.update(i, x)) + (if is_template(s[i]) {
            1int
        } else {
            0int
        }) == template_count(s) + (if is_template(x) {
            1int
        } else {
            0int
        }),
{
    let a = s.take(i);
    let b = s.skip(i + 1);
    assert(s =~= a + seq![s[i]] + b);
    assert(s.update(i, x) =~= a + seq![x] + b);
    lemma_template_count_append(a + seq![s[i]], b);
    lemma_template_count_append(a, seq![s[i]]);
    lemma_template_count_append(a + seq![x], b);
    lemma_template_count_append(a, seq![x]);
    lemma_template_count_single(s[i]);
    lemma_template_count_single(x);
}

proof fn lemma_template_count_insert(s: Seq<Node>, i: int, x: Node)
    requires
        0 <= i <= s.len(),
    ensures
        template_count(s.insert(i, x)) == template_count(s) + (if is_template(x) {
            1int
        } else {
            0int
        }),
{
    let a = s.take(i);
    let b = s.skip(i);
    assert(s =~= a + b);
    assert(s.insert(i, x) =~= a + seq![x] + b);
    lemma_template_count_append(a, b);
    lemma_template_count_append(a + seq![x], b);
    lemma_template_count_append(a, seq![x]);
    lemma_template_count_single(x);
}

proof fn lemma_template_count_remove(s: Seq<Node>, i: int)
    requires
        0 <= i < s.len(),
    ensures
        template_count(s.remove(i)) + (if is_template(s[i]) {
            1int
        } else {
            0int
        }) == template_count(s),
{
    let a = s.take(i);
    let b = s.skip(i + 1);
    assert(s =~= a + seq![s[i]] + b);
    assert(s.remove(i) =~= a + b);
    lemma_template_count_append(a + seq![s[i]], b);
    lemma_template_count_append(a, seq![s[i]]);
    lemma_template_count_append(a, b);
    lemma_template_count_single(s[i]);
}

/// `n` is an HTML element whose tag name is one of `names`.
pub open spec fn is_html_named_one_of(n: Node, names: Seq<&str>) -> bool {
    &&& n.namespace == Namespace::HTML
    &&& exists|j: int| 0 <= j < names.len() && (#[trigger] names[j])@ == n.tag_name@
}

/// `k` is the topmost index of `s` that holds an HTML element whose tag
/// name is one of `names`.
pub open spec fn is_topmost_html_named_one_of(s: Seq<Node>, k: int, names: Seq<&str>) -> bool {
    &&& 0 <= k < s.len()
    &&& is_html_named_one_of(s[k], names)
    &&& forall|j: int| k < j < s.len() ==> !is_html_named_one_of(#[trigger] s[j], names)
}

/// `k` is the topmost index of `s` that holds the element with identity
/// `id`.
pub open spec fn is_topmost_with_id(s: Seq<Node>, k: int, id: u64) -> bool {
    &&& 0 <= k < s.len()
    &&& s[k].id == id
    &&& forall|j: int| k < j < s.len() ==> (#[trigger] s[j]).id != id
}

fn names_contain(names: &[&str], t: &str) -> (r: bool)
    ensures
        r == exists|j: int| 0 <= j < names@.len() && (#[trigger] names@[j])@ == t@,
{
    let n = names.len();
    let mut j: usize = 0;
    while j < n
        invariant
            n == names@.len(),
            0 <= j <= n,
            forall|i: int| 0 <= i < j ==> (#[trigger] names@[i])@ != t@,
        decreases n - j,
    {
        if str_eq(names[j], t) {
            return true;
        }
        j = j + 1;
    }
    false
}

/// The stack of open elements.
pub struct OpenElementsStack {
    items: Vec<Node>,
    template_element_count: usize,
}

impl View for OpenElementsStack {
    type V = Seq<Node>;

    /// The items of the stack, from the bottom to the current node.
    closed spec fn view(&self) -> Seq<Node> {
        self.items@
    }
}

impl OpenElementsStack {
    /// The stack's count of template elements agrees with its items.
    pub closed spec fn wf(&self) -> bool {
        self.template_element_count == template_count(self.items@)
    }

    /// An empty stack.
    pub fn new() -> (r: Self)
        ensures
            r.wf(),
            r@ == Seq::<Node>::empty(),
    {
        OpenElementsStack { items: Vec::with_capacity(16), template_element_count: 0 }
    }

    /// The items of the stack, from the bottom to the current node.
    pub fn items(&self) -> (r: &Vec<Node>)
        ensures
            r@ == self@,
    {
        &self.items
    }

    /// Pushes `node` on the stack; it becomes the current node.
    pub fn push(&mut self, node: Node)
        requires
            old(self).wf(),
        ensures
            final(self).wf(),
            final(self)@ == old(self)@.push(node),
    {
        let is_template = node.is_html_named("template");
        let ghost s = self.items@;
        self.items.push(node);
        let len = self.items.len();
        proof {
            assert(s.push(node) =~= s + seq![node]);
            lemma_template_count_append(s, seq![node]);
            lemma_template_count_single(node);
            lemma_template_count_le_len(self.items@);
        }
        if is_template {
            self.template_element_count = self.template_element_count + 1;
        }
    }

    /// Pops the current node off the stack and returns it; `None` when the
    /// stack is empty.
    pub fn pop(&mut self) -> (r: Option<Node>)
        requires
            old(self).wf(),
        ensures
            final(self).wf(),
            old(self)@.len() == 0 ==> r is None && final(self)@ == old(self)@,
            old(self)@.len() > 0 ==> r == Some(old(self)@.last()) && final(self)@ == old(
                self,
            )@.drop_last(),
    {
        let popped = self.items.pop();
        if let Some(node) = &popped {
            if node.is_html_named("template") {
                self.template_element_count = self.template_element_count - 1;
            }
        }
        popped
    }

    /// Inserts `node` at `index`, moving the items above it up.
    pub fn insert(&mut self, index: usize, node: Node)
        requires
            old(self).wf(),
            index <= old(self)@.len(),
        ensures
            final(self).wf(),
            final(self)@ == old(self)@.insert(index as int, node),
    {
        let is_template = node.is_html_named("template");
        let ghost s = self.items@;
        self.items.insert(index, node);
        let len = self.items.len();
        proof {
            lemma_template_count_insert(s, index as int, node);
            lemma_template_count_le_len(self.items@);
        }
        if is_template {
            self.template_element_count = self.template_element_count + 1;
        }
    }

    /// Puts `node` in the place of the item at `index`; does nothing when
    /// there is no such item.
    pub fn replace(&mut self, index: usize, node: Node)
        requires
            old(self).wf(),
        ensures
            final(self).wf(),
            index < old(self)@.len() ==> final(self)@ == old(self)@.update(index as int, node),
            index >= old(self)@.len() ==> final(self)@ == old(self)@,
    {
        if index < self.items.len() {
            let ghost s = self.items@;
            proof {
                lemma_template_count_update(s, index as int, node);
                lemma_template_count_le_len(s.update(index as int, node));
                lemma_template_count_positive(s);
                if is_template(s[index as int]) {
                    assert(has_template(s));
                }
            }
            if self.items[index].is_html_named("template") {
                self.template_element_count = self.template_element_count - 1;
            }
            if node.is_html_named("template") {
                self.template_element_count = self.template_element_count + 1;
            }
            self.items.set(index, node);
        }
    }

    /// Removes the topmost item that is the same element as `node`; does
    /// nothing when no item is.
    pub fn remove(&mut self, node: &Node)
        requires
            old(self).wf(),
        ensures
            final(self).wf(),
            (forall|i: int| 0 <= i < old(self)@.len() ==> old(self)@[i].id != node.id)
                ==> final(self)@ == old(self)@,
            forall|p: int|
                #[trigger] is_topmost_with_id(old(self)@, p, node.id) ==> final(self)@ == old(self)@.remove(
                    p,
                ),
    {
        let ghost s = self.items@;
        let mut i = self.items.len();
        while i > 0
            invariant
                self.items@ == s,
                old(self)@ == s,
                self.wf(),
                i <= s.len(),
                forall|j: int| i <= j < s.len() ==> s[j].id != node.id,
            decreases i,
        {
            if self.items[i - 1].id == node.id {
                let position = i - 1;
                proof {
                    lemma_template_count_remove(s, position as int);
                }
                proof {
                    assert(s[position as int].id == node.id);
                    assert forall|p: int| is_topmost_with_id(s, p, node.id) implies p
                        == position by {
                        if p < position {
                            assert(s[position as int].id == node.id);
                        }
                    }
                }
                let removed = self.items.remove(position);
                if removed.is_html_named("template") {
                    self.template_element_count = self.template_element_count - 1;
                }
                return;
            }
            i = i - 1;
        }
    }

    /// Whether the stack holds an HTML `template` element.
    pub fn contains_template_element(&self) -> (r: bool)
        requires
            self.wf(),
        ensures
            r == has_template(self@),
    {
        proof {
            lemma_template_count_positive(self.items@);
        }
        self.template_element_count > 0
    }

    // The stack has an element target node in a specific scope consisting of
    // the element types of `list` when, walking down from the current node,
    // the target is met before any element of those types.
    fn has_element_target_node_in_specific_scope(&self, tag_name: &str, list: ScopeList) -> (r:
        bool)
        ensures
            r == has_in_specific_scope(self@, tag_name@, list),
    {
        let ghost s = self@;
        let mut i = self.items.len();
        assert(s.take(i as int) =~= s);
        while i > 0
            invariant
                s == self.items@,
                i <= s.len(),
                has_in_specific_scope(s, tag_name@, list) == has_in_specific_scope(
                    s.take(i as int),
                    tag_name@,
                    list,
                ),
            decreases i,
        {
            let node = &self.items[i - 1];
            proof {
                let t = s.take(i as int);
                assert(t.last() == s[i - 1]);
                assert(t.drop_last() =~= s.take(i - 1));
            }
            if node.is_html_named(tag_name) {
                return true;
            }
            if is_scope_marker_node(list, node) {
                return false;
            }
            i = i - 1;
        }
        false
    }

    /// Whether the stack has an HTML element named `tag_name` in scope.
    pub fn has_in_scope(&self, tag_name: &str) -> (r: bool)
        ensures
            r == has_in_specific_scope(self@, tag_name@, ScopeList::Specific),
    {
        self.has_element_target_node_in_specific_scope(tag_name, ScopeList::Specific)
    }

    /// Whether the stack has the element `target` in scope.
    pub fn has_node_in_scope(&self, target: &Node) -> (r: bool)
        ensures
            r == has_node_in_specific_scope(self@, *target),
    {
        let ghost s = self@;
        let mut i = self.items.len();
        assert(s.take(i as int) =~= s);
        while i > 0
            invariant
                s == self.items@,
                i <= s.len(),
                has_node_in_specific_scope(s, *target) == has_node_in_specific_scope(
                    s.take(i as int),
                    *target,
                ),
            decreases i,
        {
            let node = &self.items[i - 1];
            proof {
                let t = s.take(i as int);
                assert(t.last() == s[i - 1]);
                assert(t.drop_last() =~= s.take(i - 1));
            }
            if node.id == target.id {
                return true;
            }
            if is_scope_marker_node(ScopeList::Specific, node) {
                return false;
            }
            i = i - 1;
        }
        false
    }

    /// Whether the stack has an HTML element named `tag_name` in list item
    /// scope.
    pub fn has_in_list_item_scope(&self, tag_name: &str) -> (r: bool)
        ensures
            r == has_in_specific_scope(self@, tag_name@, ScopeList::ListItem),
    {
        self.has_element_target_node_in_specific_scope(tag_name, ScopeList::ListItem)
    }

    /// Whether the stack has an HTML element named `tag_name` in button scope.
    pub fn has_in_button_scope(&self, tag_name: &str) -> (r: bool)
        ensures
            r == has_in_specific_scope(self@, tag_name@, ScopeList::Button),
    {
        self.has_element_target_node_in_specific_scope(tag_name, ScopeList::Button)
    }

    /// Whether the stack has an HTML element named `tag_name` in table scope.
    pub fn has_in_table_scope(&self, tag_name: &str) -> (r: bool)
        ensures
            r == has_in_specific_scope(self@, tag_name@, ScopeList::Table),
    {
        self.has_element_target_node_in_specific_scope(tag_name, ScopeList::Table)
    }

    /// Whether the stack has an HTML element named `tag_name` in select scope:
    /// the scope bounded by every element type but HTML `optgroup` and
    /// `option`.
    pub fn has_in_select_scope(&self, tag_name: &str) -> (r: bool)
        ensures
            r == has_in_select_scope(self@, tag_name@),
    {
        let ghost s = self@;
        let mut i = self.items.len();
        assert(s.take(i as int) =~= s);
        while i > 0
            invariant
                s == self.items@,
                i <= s.len(),
                has_in_select_scope(s, tag_name@) == has_in_select_scope(
                    s.take(i as int),
                    tag_name@,
                ),
            decreases i,
        {
            let node = &self.items[i - 1];
            proof {
                let t = s.take(i as int);
                assert(t.last() == s[i - 1]);
                assert(t.drop_last() =~= s.take(i - 1));
            }
            if node.is_html_named(tag_name) {
                return true;
            }
            if !is_select_scope_exception_node(node) {
                return false;
            }
            i = i - 1;
        }
        false
    }

    // Pops the current node for as long as it is to be popped under `rule`.
    fn pop_while(&mut self, rule: PopRule)
        requires
            old(self).wf(),
        ensures
            final(self).wf(),
            final(self)@ == popped_while(old(self)@, rule),
    {
        loop
            invariant
                self.wf(),
                popped_while(self@, rule) == popped_while(old(self)@, rule),
            ensures
                self.wf(),
                self@ == popped_while(old(self)@, rule),
            decreases self@.len(),
        {
            let n = self.items.len();
            if n == 0 {
                break;
            }
            if !node_pops(rule, &self.items[n - 1]) {
                break;
            }
            self.pop();
        }
    }

    /// Pops elements until the current node is an HTML `table`, `template` or
    /// `html` element.
    pub fn clear_back_to_table_context(&mut self)
        requires
            old(self).wf(),
        ensures
            final(self).wf(),
            final(self)@ == popped_while(old(self)@, PopRule::NotTableContext),
    {
        self.pop_while(PopRule::NotTableContext);
    }

    /// Pops elements until the current node is an HTML `tr`, `template` or
    /// `html` element.
    pub fn clear_back_to_table_row_context(&mut self)
        requires
            old(self).wf(),
        ensures
            final(self).wf(),
            final(self)@ == popped_while(old(self)@, PopRule::NotTableRowContext),
    {
        self.pop_while(PopRule::NotTableRowContext);
    }

    /// Pops elements until the current node is an HTML `tbody`, `tfoot`,
    /// `thead`, `template` or `html` element.
    pub fn clear_back_to_table_body_context(&mut self)
        requires
            old(self).wf(),
        ensures
            final(self).wf(),
            final(self)@ == popped_while(old(self)@, PopRule::NotTableBodyContext),
    {
        self.pop_while(PopRule::NotTableBodyContext);
    }

    /// Pops elements while the current node is an HTML `dd`, `dt`, `li`,
    /// `optgroup`, `option`, `p`, `rb`, `rp`, `rt` or `rtc` element.
    pub fn generate_implied_end_tags(&mut self)
        requires
            old(self).wf(),
        ensures
            final(self).wf(),
            final(self)@ == popped_while(old(self)@, PopRule::ImpliedEndTag),
    {
        self.pop_while(PopRule::ImpliedEndTag);
    }

    /// As `generate_implied_end_tags`, but stops at an HTML element named
    /// `tag_name`.
    pub fn generate_implied_end_tags_with_exclusion(&mut self, tag_name: &str)
        requires
            old(self).wf(),
        ensures
            final(self).wf(),
            final(self)@ == popped_while(old(self)@, PopRule::ImpliedEndTagExcept(tag_name)),
    {
        self.pop_while(PopRule::ImpliedEndTagExcept(tag_name));
    }

    /// Pops elements while the current node is an HTML `caption`, `colgroup`,
    /// `dd`, `dt`, `li`, `optgroup`, `option`, `p`, `rb`, `rp`, `rt`, `rtc`,
    /// `tbody`, `td`, `tfoot`, `th`, `thead` or `tr` element.
    pub fn generate_implied_end_tags_thoroughly(&mut self)
        requires
            old(self).wf(),
        ensures
            final(self).wf(),
            final(self)@ == popped_while(old(self)@, PopRule::ImpliedEndTagThorough),
    {
        self.pop_while(PopRule::ImpliedEndTagThorough);
    }

    /// Pops elements until the current node is an HTML element, a MathML
    /// text integration point or an HTML integration point.
    pub fn pop_until_in_foreign(&mut self)
        requires
            old(self).wf(),
        ensures
            final(self).wf(),
            final(self)@ == popped_while(old(self)@, PopRule::NotForeignContentBoundary),
    {
        self.pop_while(PopRule::NotForeignContentBoundary);
    }
    /// Pops elements until an HTML element whose tag name is one of
    /// `tag_name` has been popped, and returns that element; `None` when the
    /// stack runs empty first.
    pub fn pop_until_tag_name_popped(&mut self, tag_name: &[&str]) -> (r: Option<Node>)
        requires
            old(self).wf(),
        ensures
            final(self).wf(),
            forall|k: int|
                #[trigger] is_topmost_html_named_one_of(old(self)@, k, tag_name@) ==> r == Some(old(self)@[k]) && final(self)@ == old(self)@.take(k),
            (forall|k: int|
                0 <= k < old(self)@.len() ==> !is_html_named_one_of(
                    #[trigger] old(self)@[k],
                    tag_name@,
                )) ==> r is None && final(self)@.len() == 0,
    {
        let ghost s = self@;
        loop
            invariant
                self.wf(),
                s == old(self)@,
                self@.len() <= s.len(),
                self@ == s.take(self@.len() as int),
                forall|j: int|
                    self@.len() <= j < s.len() ==> !is_html_named_one_of(
                        #[trigger] s[j],
                        tag_name@,
                    ),
            decreases self@.len(),
        {
            let ghost before = self@;
            match self.pop() {
                Some(node) => {
                    proof {
                        assert(node == s[before.len() - 1]);
                        assert(self@ =~= s.take(before.len() - 1));
                    }
                    if node.namespace == Namespace::HTML && names_contain(
                        tag_name,
                        node.tag_name.as_str(),
                    ) {
                        proof {
                            assert(is_html_named_one_of(s[before.len() - 1], tag_name@));
                            assert forall|k: int|
                                is_topmost_html_named_one_of(s, k, tag_name@) implies k
                                == before.len() - 1 by {
                                if k < before.len() - 1 {
                                    assert(is_html_named_one_of(s[before.len() - 1], tag_name@));
                                }
                            }
                        }
                        return Some(node);
                    }
                },
                None => {
                    return None;
                },
            }
        }
    }

    /// Pops elements until the element `until_to_node` has been popped, and
    /// returns it; `None` when the stack runs empty first.
    pub fn pop_until_node(&mut self, until_to_node: &Node) -> (r: Option<Node>)
        requires
            old(self).wf(),
        ensures
            final(self).wf(),
            forall|k: int|
                #[trigger] is_topmost_with_id(old(self)@, k, until_to_node.id) ==> r == Some(old(self)@[k])
                    && final(self)@ == old(self)@.take(k),
            (forall|k: int| 0 <= k < old(self)@.len() ==> (#[trigger] old(self)@[k]).id
                != until_to_node.id) ==> r is None && final(self)@.len() == 0,
    {
        let ghost s = self@;
        loop
            invariant
                self.wf(),
                s == old(self)@,
                self@.len() <= s.len(),
                self@ == s.take(self@.len() as int),
                forall|j: int| self@.len() <= j < s.len() ==> (#[trigger] s[j]).id != until_to_node.id,
            decreases self@.len(),
        {
            let ghost before = self@;
            match self.pop() {
                Some(node) => {
                    proof {
                        assert(node == s[before.len() - 1]);
                        assert(self@ =~= s.take(before.len() - 1));
                    }
                    if node.id == until_to_node.id {
                        proof {
                            assert forall|k: int|
                                is_topmost_with_id(s, k, until_to_node.id) implies k
                                == before.len() - 1 by {
                                if k < before.len() - 1 {
                                    assert(s[before.len() - 1].id == until_to_node.id);
                                }
                            }
                        }
                        return Some(node);
                    }
                },
                None => {
                    return None;
                },
            }
        }
    }
}

} // verus!
