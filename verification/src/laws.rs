//! What holds of the stack of open elements across its operations.

use vstd::prelude::*;

use crate::node::{ascii_lower, eq_ignore_ascii_case, is_html_named, is_named, Namespace, Node};
use crate::scope::{
    has_in_select_scope, has_in_specific_scope, has_node_in_specific_scope, is_scope_marker,
    is_select_scope_exception, is_specific_scope_marker,
    popped_while, pops, PopRule, ScopeList,
};
use crate::stack::{
    has_template, is_html_named_one_of, is_template, is_topmost_html_named_one_of,
    is_topmost_with_id,
};

verus! {

/// Popping right after pushing `n` gives back `n` and leaves the items as
/// they were before the push.
pub proof fn law_pop_undoes_push(s: Seq<Node>, n: Node)
    ensures
        s.push(n).len() > 0,
        s.push(n).last() == n,
        s.push(n).drop_last() == s,
{
    assert(s.push(n).drop_last() =~= s);
}

/// Removing `n` right after pushing it removes the pushed item and leaves
/// the items as they were before the push, whatever else they hold.
pub proof fn law_remove_undoes_push(s: Seq<Node>, n: Node)
    ensures
        is_topmost_with_id(s.push(n), s.len() as int, n.id),
        s.push(n).remove(s.len() as int) == s,
{
    assert(s.push(n).remove(s.len() as int) =~= s);
}

/// After a template element is pushed, the stack holds a template element.
pub proof fn law_pushed_template_is_contained(s: Seq<Node>, n: Node)
    requires
        is_template(n),
    ensures
        has_template(s.push(n)),
{
    assert(is_template(s.push(n)[s.len() as int]));
}

/// A stack whose items are all popped holds no template element.
pub proof fn law_empty_holds_no_template()
    ensures
        !has_template(Seq::<Node>::empty()),
{
}

proof fn lemma_fewer_markers(s: Seq<Node>, t: Seq<char>, small: ScopeList, large: ScopeList)
    requires
        forall|n: Node| is_scope_marker(small, n) ==> is_scope_marker(large, n),
    ensures
        has_in_specific_scope(s, t, large) ==> has_in_specific_scope(s, t, small),
    decreases s.len(),
{
    if s.len() > 0 {
        lemma_fewer_markers(s.drop_last(), t, small, large);
    }
}

/// An element in list item scope is in scope: the list item scope is bounded
/// by more element types.
pub proof fn law_list_item_scope_within_scope(s: Seq<Node>, t: Seq<char>)
    ensures
        has_in_specific_scope(s, t, ScopeList::ListItem) ==> has_in_specific_scope(
            s,
            t,
            ScopeList::Specific,
        ),
{
    lemma_fewer_markers(s, t, ScopeList::Specific, ScopeList::ListItem);
}

/// An element in button scope is in scope.
pub proof fn law_button_scope_within_scope(s: Seq<Node>, t: Seq<char>)
    ensures
        has_in_specific_scope(s, t, ScopeList::Button) ==> has_in_specific_scope(
            s,
            t,
            ScopeList::Specific,
        ),
{
    lemma_fewer_markers(s, t, ScopeList::Specific, ScopeList::Button);
}

/// An element in scope is in table scope: the table scope is bounded by
/// fewer element types.
pub proof fn law_scope_within_table_scope(s: Seq<Node>, t: Seq<char>)
    ensures
        has_in_specific_scope(s, t, ScopeList::Specific) ==> has_in_specific_scope(
            s,
            t,
            ScopeList::Table,
        ),
{
    lemma_fewer_markers(s, t, ScopeList::Table, ScopeList::Specific);
}

/// When the current node is the HTML element sought, it is in every scope.
pub proof fn law_current_node_in_every_scope(s: Seq<Node>, t: Seq<char>, list: ScopeList)
    requires
        s.len() > 0,
        is_html_named(s.last(), t),
    ensures
        has_in_specific_scope(s, t, list),
        has_in_select_scope(s, t),
        has_node_in_specific_scope(s, s.last()),
{
}

/// When the bottom of the stack is an HTML `html` element, the walk down from
/// the current node of every scope query ends at an element before it runs
/// off the bottom: the target, or an element that bounds the scope.
pub proof fn law_scope_walk_ends_at_html_root(s: Seq<Node>, t: Seq<char>, list: ScopeList)
    requires
        s.len() > 0,
        is_html_named(s[0], "html"@),
    ensures
        exists|k: int|
            0 <= k < s.len() && (is_html_named(#[trigger] s[k], t) || is_scope_marker(list, s[k])),
        exists|k: int|
            0 <= k < s.len() && (is_html_named(#[trigger] s[k], t) || !is_select_scope_exception(
                s[k],
            )),
{
    assert(is_scope_marker(list, s[0]));
    if is_select_scope_exception(s[0]) {
        assert(s[0].tag_name@ == "html"@);
        reveal_strlit("html");
        reveal_strlit("option");
        reveal_strlit("optgroup");
        assert("html"@[1] == 't');
        assert("option"@[1] == 'p');
        assert("optgroup"@[1] == 'p');
    }
    assert(!is_select_scope_exception(s[0]));
}

/// Clearing the stack under `rule` pops a run of current nodes that are all
/// to be popped, and stops at an empty stack or a node that is not.
pub proof fn law_popped_while_stops(s: Seq<Node>, rule: PopRule)
    ensures
        popped_while(s, rule).len() <= s.len(),
        popped_while(s, rule) == s.take(popped_while(s, rule).len() as int),
        forall|j: int|
            popped_while(s, rule).len() <= j < s.len() ==> pops(rule, #[trigger] s[j]),
        popped_while(s, rule).len() == 0 || !pops(rule, popped_while(s, rule).last()),
    decreases s.len(),
{
    if s.len() > 0 && pops(rule, s.last()) {
        let d = s.drop_last();
        law_popped_while_stops(d, rule);
        let r = popped_while(s, rule);
        assert(r == popped_while(d, rule));
        assert(d.take(r.len() as int) =~= s.take(r.len() as int));
        assert forall|j: int| r.len() <= j < s.len() implies pops(rule, #[trigger] s[j]) by {
            if j < s.len() - 1 {
                assert(s[j] == d[j]);
            }
        }
    } else {
        assert(s.take(s.len() as int) =~= s);
    }
}

/// Clearing the stack twice under the same rule is clearing it once.
pub proof fn law_popped_while_idempotent(s: Seq<Node>, rule: PopRule)
    ensures
        popped_while(popped_while(s, rule), rule) == popped_while(s, rule),
    decreases s.len(),
{
    if s.len() > 0 && pops(rule, s.last()) {
        law_popped_while_idempotent(s.drop_last(), rule);
    }
}

proof fn lemma_popped_while_monotone(s: Seq<Node>, weak: PopRule, strong: PopRule)
    requires
        forall|n: Node| pops(weak, n) ==> pops(strong, n),
    ensures
        popped_while(s, strong).len() <= popped_while(s, weak).len(),
    decreases s.len(),
{
    if s.len() > 0 {
        lemma_popped_while_monotone(s.drop_last(), weak, strong);
        law_popped_while_stops(s.drop_last(), strong);
    }
}

/// Generating all implied end tags thoroughly pops at least as many
/// elements as generating the implied end tags.
pub proof fn law_thorough_pops_at_least_implied(s: Seq<Node>)
    ensures
        popped_while(s, PopRule::ImpliedEndTagThorough).len() <= popped_while(
            s,
            PopRule::ImpliedEndTag,
        ).len(),
{
    lemma_popped_while_monotone(s, PopRule::ImpliedEndTag, PopRule::ImpliedEndTagThorough);
}

/// Generating implied end tags with an exclusion pops no more elements than
/// generating them without one.
pub proof fn law_exclusion_pops_at_most_implied(s: Seq<Node>, excluded: &str)
    ensures
        popped_while(s, PopRule::ImpliedEndTag).len() <= popped_while(
            s,
            PopRule::ImpliedEndTagExcept(excluded),
        ).len(),
{
    lemma_popped_while_monotone(s, PopRule::ImpliedEndTagExcept(excluded), PopRule::ImpliedEndTag);
}

spec fn found_in_specific_scope(s: Seq<Node>, k: int, t: Seq<char>, list: ScopeList) -> bool {
    &&& 0 <= k < s.len()
    &&& is_html_named(s[k], t)
    &&& forall|j: int| k < j < s.len() ==> !is_scope_marker(list, #[trigger] s[j])
}

proof fn lemma_specific_scope_walk(s: Seq<Node>, t: Seq<char>, list: ScopeList)
    ensures
        has_in_specific_scope(s, t, list) <==> exists|k: int|
            #[trigger] found_in_specific_scope(s, k, t, list),
    decreases s.len(),
{
    if s.len() > 0 {
        let d = s.drop_last();
        let top = s.len() - 1;
        lemma_specific_scope_walk(d, t, list);
        if is_html_named(s.last(), t) {
            assert(found_in_specific_scope(s, top, t, list));
        } else if is_scope_marker(list, s.last()) {
            assert forall|k: int| !#[trigger] found_in_specific_scope(s, k, t, list) by {
                if 0 <= k < top {
                    assert(is_scope_marker(list, s[top]));
                }
            }
        } else {
            assert forall|k: int| #[trigger]
                found_in_specific_scope(s, k, t, list) implies found_in_specific_scope(
                d,
                k,
                t,
                list,
            ) by {
                assert(k < top);
                assert forall|j: int| k < j < d.len() implies !is_scope_marker(
                    list,
                    #[trigger] d[j],
                ) by {
                    assert(d[j] == s[j]);
                }
            }
            assert forall|k: int| #[trigger]
                found_in_specific_scope(d, k, t, list) implies found_in_specific_scope(
                s,
                k,
                t,
                list,
            ) by {
                assert forall|j: int| k < j < s.len() implies !is_scope_marker(
                    list,
                    #[trigger] s[j],
                ) by {
                    if j < top {
                        assert(d[j] == s[j]);
                    }
                }
            }
        }
    }
}

proof fn lemma_specific_scope_walk_explicit(
    s: Seq<Node>,
    t: Seq<char>,
    list: ScopeList,
    bound: spec_fn(Node) -> bool,
)
    requires
        forall|n: Node| #[trigger] is_scope_marker(list, n) <==> bound(n),
    ensures
        has_in_specific_scope(s, t, list) <==> exists|k: int|
            0 <= k < s.len() && is_html_named(#[trigger] s[k], t) && forall|j: int|
                k < j < s.len() ==> !bound(#[trigger] s[j]),
{
    lemma_specific_scope_walk(s, t, list);
    if has_in_specific_scope(s, t, list) {
        let k = choose|k: int| #[trigger] found_in_specific_scope(s, k, t, list);
        assert forall|j: int| k < j < s.len() implies !bound(#[trigger] s[j]) by {
            assert(!is_scope_marker(list, s[j]));
        }
        assert(is_html_named(s[k], t));
    }
    if exists|k: int|
        0 <= k < s.len() && is_html_named(#[trigger] s[k], t) && forall|j: int|
            k < j < s.len() ==> !bound(#[trigger] s[j]) {
        let k = choose|k: int|
            0 <= k < s.len() && is_html_named(#[trigger] s[k], t) && forall|j: int|
                k < j < s.len() ==> !bound(#[trigger] s[j]);
        assert forall|j: int| k < j < s.len() implies !is_scope_marker(list, #[trigger] s[j]) by {
            assert(!bound(s[j]));
        }
        assert(found_in_specific_scope(s, k, t, list));
    }
}

/// The element types of the "has an element in scope" list, written out:
/// HTML applet, caption, html, marquee, object, table, td, template, th;
/// MathML annotation-xml, mi, mn, mo, ms, mtext; SVG desc, foreignObject,
/// title.
pub open spec fn bounds_scope(n: Node) -> bool {
    ||| is_html_named(n, "applet"@)
    ||| is_html_named(n, "caption"@)
    ||| is_html_named(n, "html"@)
    ||| is_html_named(n, "marquee"@)
    ||| is_html_named(n, "object"@)
    ||| is_html_named(n, "table"@)
    ||| is_html_named(n, "td"@)
    ||| is_html_named(n, "template"@)
    ||| is_html_named(n, "th"@)
    ||| is_named(n, Namespace::MATHML, "annotation-xml"@)
    ||| is_named(n, Namespace::MATHML, "mi"@)
    ||| is_named(n, Namespace::MATHML, "mn"@)
    ||| is_named(n, Namespace::MATHML, "mo"@)
    ||| is_named(n, Namespace::MATHML, "ms"@)
    ||| is_named(n, Namespace::MATHML, "mtext"@)
    ||| is_named(n, Namespace::SVG, "desc"@)
    ||| is_named(n, Namespace::SVG, "foreignObject"@)
    ||| is_named(n, Namespace::SVG, "title"@)
}

/// An HTML element named `t` is in scope exactly when one stands on the
/// stack with no element of the "in scope" list above it.
pub proof fn law_in_scope(s: Seq<Node>, t: Seq<char>)
    ensures
        has_in_specific_scope(s, t, ScopeList::Specific) <==> exists|k: int|
            0 <= k < s.len() && is_html_named(#[trigger] s[k], t) && forall|j: int|
                k < j < s.len() ==> !bounds_scope(#[trigger] s[j]),
{
    lemma_specific_scope_walk_explicit(s, t, ScopeList::Specific, |n: Node| bounds_scope(n));
}

/// An HTML element named `t` is in list item scope exactly when one stands
/// on the stack with no element of the "in scope" list, and no HTML `ol` or
/// `ul`, above it.
pub proof fn law_in_list_item_scope(s: Seq<Node>, t: Seq<char>)
    ensures
        has_in_specific_scope(s, t, ScopeList::ListItem) <==> exists|k: int|
            0 <= k < s.len() && is_html_named(#[trigger] s[k], t) && forall|j: int|
                k < j < s.len() ==> !(bounds_scope(#[trigger] s[j]) || is_html_named(s[j], "ol"@)
                    || is_html_named(s[j], "ul"@)),
{
    lemma_specific_scope_walk_explicit(
        s,
        t,
        ScopeList::ListItem,
        |n: Node| bounds_scope(n) || is_html_named(n, "ol"@) || is_html_named(n, "ul"@),
    );
}

/// An HTML element named `t` is in button scope exactly when one stands on
/// the stack with no element of the "in scope" list, and no HTML `button`,
/// above it.
pub proof fn law_in_button_scope(s: Seq<Node>, t: Seq<char>)
    ensures
        has_in_specific_scope(s, t, ScopeList::Button) <==> exists|k: int|
            0 <= k < s.len() && is_html_named(#[trigger] s[k], t) && forall|j: int|
                k < j < s.len() ==> !(bounds_scope(#[trigger] s[j]) || is_html_named(
                    s[j],
                    "button"@,
                )),
{
    lemma_specific_scope_walk_explicit(
        s,
        t,
        ScopeList::Button,
        |n: Node| bounds_scope(n) || is_html_named(n, "button"@),
    );
}

/// An HTML element named `t` is in table scope exactly when one stands on the
/// stack with no HTML `html`, `table` or `template` element above it; no
/// other element bounds table scope.
pub proof fn law_in_table_scope(s: Seq<Node>, t: Seq<char>)
    ensures
        has_in_specific_scope(s, t, ScopeList::Table) <==> exists|k: int|
            0 <= k < s.len() && is_html_named(#[trigger] s[k], t) && forall|j: int|
                k < j < s.len() ==> !(is_html_named(#[trigger] s[j], "html"@) || is_html_named(
                    s[j],
                    "table"@,
                ) || is_html_named(s[j], "template"@)),
{
    lemma_specific_scope_walk_explicit(
        s,
        t,
        ScopeList::Table,
        |n: Node|
            is_html_named(n, "html"@) || is_html_named(n, "table"@) || is_html_named(
                n,
                "template"@,
            ),
    );
}

spec fn node_found_in_scope(s: Seq<Node>, k: int, id: u64) -> bool {
    &&& 0 <= k < s.len()
    &&& s[k].id == id
    &&& forall|j: int| k < j < s.len() ==> !is_specific_scope_marker(#[trigger] s[j])
}

proof fn lemma_node_scope_walk(s: Seq<Node>, target: Node)
    ensures
        has_node_in_specific_scope(s, target) <==> exists|k: int|
            #[trigger] node_found_in_scope(s, k, target.id),
    decreases s.len(),
{
    if s.len() > 0 {
        let d = s.drop_last();
        let top = s.len() - 1;
        lemma_node_scope_walk(d, target);
        if s.last().id == target.id {
            assert(node_found_in_scope(s, top, target.id));
        } else if is_specific_scope_marker(s.last()) {
            assert forall|k: int| !#[trigger] node_found_in_scope(s, k, target.id) by {
                if 0 <= k < top {
                    assert(is_specific_scope_marker(s[top]));
                }
            }
        } else {
            assert forall|k: int| #[trigger]
                node_found_in_scope(s, k, target.id) implies node_found_in_scope(
                d,
                k,
                target.id,
            ) by {
                assert(k < top);
                assert forall|j: int| k < j < d.len() implies !is_specific_scope_marker(
                    #[trigger] d[j],
                ) by {
                    assert(d[j] == s[j]);
                }
            }
            assert forall|k: int| #[trigger]
                node_found_in_scope(d, k, target.id) implies node_found_in_scope(
                s,
                k,
                target.id,
            ) by {
                assert forall|j: int| k < j < s.len() implies !is_specific_scope_marker(
                    #[trigger] s[j],
                ) by {
                    if j < top {
                        assert(d[j] == s[j]);
                    }
                }
            }
        }
    }
}

/// The element `target` is in scope exactly when an item with its identity
/// stands on the stack with no element of the "in scope" list above it.
pub proof fn law_node_in_scope(s: Seq<Node>, target: Node)
    ensures
        has_node_in_specific_scope(s, target) <==> exists|k: int|
            0 <= k < s.len() && (#[trigger] s[k]).id == target.id && forall|j: int|
                k < j < s.len() ==> !bounds_scope(#[trigger] s[j]),
{
    lemma_node_scope_walk(s, target);
    if has_node_in_specific_scope(s, target) {
        let k = choose|k: int| #[trigger] node_found_in_scope(s, k, target.id);
        assert forall|j: int| k < j < s.len() implies !bounds_scope(#[trigger] s[j]) by {
            assert(!is_specific_scope_marker(s[j]));
        }
        assert(s[k].id == target.id);
    }
    if exists|k: int|
        0 <= k < s.len() && (#[trigger] s[k]).id == target.id && forall|j: int|
            k < j < s.len() ==> !bounds_scope(#[trigger] s[j]) {
        let k = choose|k: int|
            0 <= k < s.len() && (#[trigger] s[k]).id == target.id && forall|j: int|
                k < j < s.len() ==> !bounds_scope(#[trigger] s[j]);
        assert forall|j: int| k < j < s.len() implies !is_specific_scope_marker(
            #[trigger] s[j],
        ) by {
            assert(!bounds_scope(s[j]));
        }
        assert(node_found_in_scope(s, k, target.id));
    }
}

spec fn found_in_select_scope(s: Seq<Node>, k: int, t: Seq<char>) -> bool {
    &&& 0 <= k < s.len()
    &&& is_html_named(s[k], t)
    &&& forall|j: int| k < j < s.len() ==> is_select_scope_exception(#[trigger] s[j])
}

proof fn lemma_select_scope_walk(s: Seq<Node>, t: Seq<char>)
    ensures
        has_in_select_scope(s, t) <==> exists|k: int| #[trigger] found_in_select_scope(s, k, t),
    decreases s.len(),
{
    if s.len() > 0 {
        let d = s.drop_last();
        let top = s.len() - 1;
        lemma_select_scope_walk(d, t);
        if is_html_named(s.last(), t) {
            assert(found_in_select_scope(s, top, t));
        } else if !is_select_scope_exception(s.last()) {
            assert forall|k: int| !#[trigger] found_in_select_scope(s, k, t) by {
                if 0 <= k < top {
                    assert(!is_select_scope_exception(s[top]));
                }
            }
        } else {
            assert forall|k: int| #[trigger]
                found_in_select_scope(s, k, t) implies found_in_select_scope(d, k, t) by {
                assert(k < top);
                assert forall|j: int| k < j < d.len() implies is_select_scope_exception(
                    #[trigger] d[j],
                ) by {
                    assert(d[j] == s[j]);
                }
            }
            assert forall|k: int| #[trigger]
                found_in_select_scope(d, k, t) implies found_in_select_scope(s, k, t) by {
                assert forall|j: int| k < j < s.len() implies is_select_scope_exception(
                    #[trigger] s[j],
                ) by {
                    if j < top {
                        assert(d[j] == s[j]);
                    }
                }
            }
        }
    }
}

/// An HTML element named `t` is in select scope exactly when one stands on
/// the stack with nothing but HTML `optgroup` and `option` elements above
/// it.
pub proof fn law_in_select_scope(s: Seq<Node>, t: Seq<char>)
    ensures
        has_in_select_scope(s, t) <==> exists|k: int|
            0 <= k < s.len() && is_html_named(#[trigger] s[k], t) && forall|j: int|
                k < j < s.len() ==> is_html_named(#[trigger] s[j], "optgroup"@) || is_html_named(
                    s[j],
                    "option"@,
                ),
{
    lemma_select_scope_walk(s, t);
    if has_in_select_scope(s, t) {
        let k = choose|k: int| #[trigger] found_in_select_scope(s, k, t);
        assert forall|j: int| k < j < s.len() implies is_html_named(
            #[trigger] s[j],
            "optgroup"@,
        ) || is_html_named(s[j], "option"@) by {
            assert(is_select_scope_exception(s[j]));
        }
        assert(is_html_named(s[k], t));
    }
    if exists|k: int|
        0 <= k < s.len() && is_html_named(#[trigger] s[k], t) && forall|j: int|
            k < j < s.len() ==> is_html_named(#[trigger] s[j], "optgroup"@) || is_html_named(
                s[j],
                "option"@,
            ) {
        let k = choose|k: int|
            0 <= k < s.len() && is_html_named(#[trigger] s[k], t) && forall|j: int|
                k < j < s.len() ==> is_html_named(#[trigger] s[j], "optgroup"@) || is_html_named(
                    s[j],
                    "option"@,
                );
        assert forall|j: int| k < j < s.len() implies is_select_scope_exception(
            #[trigger] s[j],
        ) by {
            assert(is_html_named(s[j], "optgroup"@) || is_html_named(s[j], "option"@));
        }
        assert(found_in_select_scope(s, k, t));
    }
}

/// Clearing back to a table context leaves the longest prefix of the stack
/// that is empty or ends in an HTML `table`, `template` or `html` element:
/// it pops exactly the items above the topmost such element.
pub proof fn law_clear_back_to_table_context(s: Seq<Node>)
    ensures
        ({
            let r = popped_while(s, PopRule::NotTableContext);
            let stop = |n: Node|
                is_html_named(n, "table"@) || is_html_named(n, "template"@) || is_html_named(
                    n,
                    "html"@,
                );
            &&& r.len() <= s.len()
            &&& r == s.take(r.len() as int)
            &&& r.len() == 0 || stop(r.last())
            &&& forall|j: int| r.len() <= j < s.len() ==> !stop(#[trigger] s[j])
        }),
{
    law_popped_while_stops(s, PopRule::NotTableContext);
}

/// Clearing back to a table row context leaves the longest prefix of the
/// stack that is empty or ends in an HTML `tr`, `template` or `html` element.
pub proof fn law_clear_back_to_table_row_context(s: Seq<Node>)
    ensures
        ({
            let r = popped_while(s, PopRule::NotTableRowContext);
            let stop = |n: Node|
                is_html_named(n, "tr"@) || is_html_named(n, "template"@) || is_html_named(
                    n,
                    "html"@,
                );
            &&& r.len() <= s.len()
            &&& r == s.take(r.len() as int)
            &&& r.len() == 0 || stop(r.last())
            &&& forall|j: int| r.len() <= j < s.len() ==> !stop(#[trigger] s[j])
        }),
{
    law_popped_while_stops(s, PopRule::NotTableRowContext);
}

/// Clearing back to a table body context leaves the longest prefix of the
/// stack that is empty or ends in an HTML `tbody`, `thead`, `tfoot`,
/// `template` or `html` element; it never pops one of those.
pub proof fn law_clear_back_to_table_body_context(s: Seq<Node>)
    ensures
        ({
            let r = popped_while(s, PopRule::NotTableBodyContext);
            let stop = |n: Node|
                is_html_named(n, "tbody"@) || is_html_named(n, "thead"@) || is_html_named(
                    n,
                    "tfoot"@,
                ) || is_html_named(n, "template"@) || is_html_named(n, "html"@);
            &&& r.len() <= s.len()
            &&& r == s.take(r.len() as int)
            &&& r.len() == 0 || stop(r.last())
            &&& forall|j: int| r.len() <= j < s.len() ==> !stop(#[trigger] s[j])
        }),
{
    law_popped_while_stops(s, PopRule::NotTableBodyContext);
}

/// The HTML elements whose end tags are implied, written out: `dd`, `dt`,
/// `li`, `optgroup`, `option`, `p`, `rb`, `rp`, `rt`, `rtc`.
pub open spec fn has_implied_end_tag(n: Node) -> bool {
    ||| is_html_named(n, "dd"@)
    ||| is_html_named(n, "dt"@)
    ||| is_html_named(n, "li"@)
    ||| is_html_named(n, "optgroup"@)
    ||| is_html_named(n, "option"@)
    ||| is_html_named(n, "p"@)
    ||| is_html_named(n, "rb"@)
    ||| is_html_named(n, "rp"@)
    ||| is_html_named(n, "rt"@)
    ||| is_html_named(n, "rtc"@)
}

/// Generating implied end tags pops exactly the run of current nodes that
/// are HTML `dd`, `dt`, `li`, `optgroup`, `option`, `p`, `rb`, `rp`, `rt` or
/// `rtc` elements: afterwards the current node, if any, is none of them.
pub proof fn law_generate_implied_end_tags(s: Seq<Node>)
    ensures
        ({
            let r = popped_while(s, PopRule::ImpliedEndTag);
            &&& r.len() <= s.len()
            &&& r == s.take(r.len() as int)
            &&& r.len() == 0 || !has_implied_end_tag(r.last())
            &&& forall|j: int| r.len() <= j < s.len() ==> has_implied_end_tag(#[trigger] s[j])
        }),
{
    law_popped_while_stops(s, PopRule::ImpliedEndTag);
}

/// Generating implied end tags with the exclusion `excluded` pops exactly the
/// run of current nodes that have implied end tags and are not the HTML
/// element named `excluded`.
pub proof fn law_generate_implied_end_tags_with_exclusion(s: Seq<Node>, excluded: &str)
    ensures
        ({
            let r = popped_while(s, PopRule::ImpliedEndTagExcept(excluded));
            let popped = |n: Node| has_implied_end_tag(n) && !is_html_named(n, excluded@);
            &&& r.len() <= s.len()
            &&& r == s.take(r.len() as int)
            &&& r.len() == 0 || !popped(r.last())
            &&& forall|j: int| r.len() <= j < s.len() ==> popped(#[trigger] s[j])
        }),
{
    law_popped_while_stops(s, PopRule::ImpliedEndTagExcept(excluded));
}

/// Generating all implied end tags thoroughly pops exactly the run of
/// current nodes that have implied end tags or are HTML `caption`,
/// `colgroup`, `tbody`, `td`, `tfoot`, `th`, `thead` or `tr` elements.
pub proof fn law_generate_implied_end_tags_thoroughly(s: Seq<Node>)
    ensures
        ({
            let r = popped_while(s, PopRule::ImpliedEndTagThorough);
            let popped = |n: Node|
                has_implied_end_tag(n) || is_html_named(n, "caption"@) || is_html_named(
                    n,
                    "colgroup"@,
                ) || is_html_named(n, "tbody"@) || is_html_named(n, "td"@) || is_html_named(
                    n,
                    "tfoot"@,
                ) || is_html_named(n, "th"@) || is_html_named(n, "thead"@) || is_html_named(
                    n,
                    "tr"@,
                );
            &&& r.len() <= s.len()
            &&& r == s.take(r.len() as int)
            &&& r.len() == 0 || !popped(r.last())
            &&& forall|j: int| r.len() <= j < s.len() ==> popped(#[trigger] s[j])
        }),
{
    law_popped_while_stops(s, PopRule::ImpliedEndTagThorough);
}

/// The elements at which popping for foreign content stops, written out: an
/// HTML element; a MathML `mi`, `mo`, `mn`, `ms` or `mtext`; a MathML
/// `annotation-xml` with an `encoding` attribute whose value is, up to ASCII
/// case, `text/html` or `application/xhtml+xml`; an SVG `foreignObject`,
/// `desc` or `title`.
pub open spec fn ends_foreign_popping(n: Node) -> bool {
    ||| n.namespace == Namespace::HTML
    ||| is_named(n, Namespace::MATHML, "mi"@)
    ||| is_named(n, Namespace::MATHML, "mo"@)
    ||| is_named(n, Namespace::MATHML, "mn"@)
    ||| is_named(n, Namespace::MATHML, "ms"@)
    ||| is_named(n, Namespace::MATHML, "mtext"@)
    ||| (is_named(n, Namespace::MATHML, "annotation-xml"@) && exists|i: int|
        0 <= i < n.attributes@.len() && (#[trigger] n.attributes@[i]).name@ == "encoding"@
            && n.attributes@[i].value is Some && (eq_ignore_ascii_case(
            n.attributes@[i].value->0@,
            "text/html"@,
        ) || eq_ignore_ascii_case(n.attributes@[i].value->0@, "application/xhtml+xml"@)))
    ||| is_named(n, Namespace::SVG, "foreignObject"@)
    ||| is_named(n, Namespace::SVG, "desc"@)
    ||| is_named(n, Namespace::SVG, "title"@)
}

/// Popping until in foreign content pops exactly the run of current nodes
/// that are none of the elements at which it stops; in particular it never
/// pops an HTML element or an HTML or MathML text integration point.
pub proof fn law_pop_until_in_foreign(s: Seq<Node>)
    ensures
        ({
            let r = popped_while(s, PopRule::NotForeignContentBoundary);
            &&& r.len() <= s.len()
            &&& r == s.take(r.len() as int)
            &&& r.len() == 0 || ends_foreign_popping(r.last())
            &&& forall|j: int| r.len() <= j < s.len() ==> !ends_foreign_popping(#[trigger] s[j])
        }),
{
    law_popped_while_stops(s, PopRule::NotForeignContentBoundary);
    assert forall|n: Node| pops(PopRule::NotForeignContentBoundary, n) <==> !ends_foreign_popping(
        n,
    ) by {
        if is_named(n, Namespace::MATHML, "annotation-xml"@) {
            if exists|i: int|
                0 <= i < n.attributes@.len() && crate::node::is_html_encoding_attribute(
                    #[trigger] n.attributes@[i],
                ) {
                let i = choose|i: int|
                    0 <= i < n.attributes@.len() && crate::node::is_html_encoding_attribute(
                        #[trigger] n.attributes@[i],
                    );
                assert(n.attributes@[i].name@ == "encoding"@);
            }
        }
    }
}

/// Two characters fold to the same code under ASCII case folding exactly
/// when they are equal or are the upper and lower case of one ASCII letter.
pub proof fn law_ascii_case_folding(c: char, d: char)
    ensures
        ascii_lower(c) == ascii_lower(d) <==> (c == d || (65 <= (c as u32) <= 90 && (d as u32)
            == (c as u32) + 32) || (65 <= (d as u32) <= 90 && (c as u32) == (d as u32) + 32)),
{
}

/// The template elements that the stack counts are exactly the elements in
/// the HTML namespace whose tag name is `template`.
pub proof fn law_template_is_html_template(n: Node)
    ensures
        is_template(n) <==> (n.namespace == Namespace::HTML && n.tag_name@ == "template"@),
        is_html_named(n, "template"@) <==> is_template(n),
{
}

/// `pop_until_tag_name_popped` stops at the topmost item that is in the HTML
/// namespace and has one of the given tag names; elements of other
/// namespaces never stop it.
pub proof fn law_pop_until_tag_name_target(s: Seq<Node>, k: int, names: Seq<&str>)
    ensures
        is_topmost_html_named_one_of(s, k, names) <==> (0 <= k < s.len() && s[k].namespace
            == Namespace::HTML && (exists|i: int|
            0 <= i < names.len() && (#[trigger] names[i])@ == s[k].tag_name@) && forall|j: int|
            k < j < s.len() ==> !((#[trigger] s[j]).namespace == Namespace::HTML && exists|i: int|
                0 <= i < names.len() && (#[trigger] names[i])@ == s[j].tag_name@)),
{
    assert forall|n: Node|
        is_html_named_one_of(n, names) <==> (n.namespace == Namespace::HTML && exists|i: int|
            0 <= i < names.len() && (#[trigger] names[i])@ == n.tag_name@) by {}
}

} // verus!
