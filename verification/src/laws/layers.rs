//! Laws of optional content: what the document says of its groups, and when content
//! is visible.

use vstd::prelude::*;
use crate::document::DocV;
use crate::laws::pages::written;
use crate::number::NumV;
use crate::objects::{dict_get, DictV, ObjV, ObjectId};
use crate::ocg::{
    base_state_named, config_of, config_value, configs_among, configured_state, content_of,
    document_content, expression_of, group_of, groups_among, holds, intents_of, is_on, listed,
    listed_group, listed_groups, membership_of, names_among, oc_visible, operands, order_items,
    policy_named, radio_sets, refs_among, states_of, usage_of, visible, ConfigV, ContentV, ExprV,
    GroupV, MembershipV, OcBaseState, OcListMode, OcStates, OcVisibilityPolicy, OrderV,
};
use crate::textstring::text_of_bytes;

verus! {

// ---------------------------------------------------------------- visibility

/// The policies by their names; without a known name any group that is on is enough.
pub proof fn law_policy_names(name: Seq<char>)
    ensures
        policy_named("AllOn"@) == OcVisibilityPolicy::AllOn,
        policy_named("AnyOn"@) == OcVisibilityPolicy::AnyOn,
        policy_named("AnyOff"@) == OcVisibilityPolicy::AnyOff,
        policy_named("AllOff"@) == OcVisibilityPolicy::AllOff,
        name.len() != 5 && name.len() != 6 ==> policy_named(name) == OcVisibilityPolicy::AnyOn,
        base_state_named("ON"@) == OcBaseState::On,
        base_state_named("OFF"@) == OcBaseState::Off,
        base_state_named("Unchanged"@) == OcBaseState::Unchanged,
{
    reveal_strlit("AllOn");
    reveal_strlit("AnyOn");
    reveal_strlit("AnyOff");
    reveal_strlit("AllOff");
    reveal_strlit("ON");
    reveal_strlit("OFF");
    reveal_strlit("Unchanged");
    assert("AllOn"@.len() == 5 && "AnyOn"@.len() == 5 && "AnyOff"@.len() == 6 && "AllOff"@.len()
        == 6);
    assert("AllOn"@[1] == 'l' && "AnyOn"@[1] == 'n' && "AnyOff"@[1] == 'n' && "AllOff"@[1] == 'l');
    assert("ON"@.len() == 2 && "OFF"@.len() == 3 && "Unchanged"@.len() == 9);
}

/// How many of the groups are on.
pub open spec fn on_count(groups: Seq<ObjectId>, states: OcStates) -> int
    decreases groups.len(),
{
    if groups.len() == 0 {
        0
    } else {
        on_count(groups.drop_last(), states) + (if states.state(groups.last()) == Some(true) {
            1int
        } else {
            0
        })
    }
}

proof fn lemma_on_count(groups: Seq<ObjectId>, states: OcStates)
    ensures
        0 <= on_count(groups, states) <= groups.len(),
        on_count(groups, states) == groups.len() <==> forall|i: int|
            0 <= i < groups.len() ==> is_on(states, #[trigger] groups[i]),
        on_count(groups, states) == 0 <==> forall|i: int|
            0 <= i < groups.len() ==> !is_on(states, #[trigger] groups[i]),
    decreases groups.len(),
{
    if groups.len() > 0 {
        let g = groups.drop_last();
        lemma_on_count(g, states);
        assert(groups[groups.len() - 1] == groups.last());
        assert forall|i: int| 0 <= i < g.len() implies g[i] == groups[i] by {}
        if forall|i: int| 0 <= i < groups.len() ==> is_on(states, #[trigger] groups[i]) {
            assert forall|i: int| 0 <= i < g.len() implies is_on(states, #[trigger] g[i]) by {
                assert(g[i] == groups[i]);
            }
        }
        if forall|i: int| 0 <= i < groups.len() ==> !is_on(states, #[trigger] groups[i]) {
            assert forall|i: int| 0 <= i < g.len() implies !is_on(states, #[trigger] g[i]) by {
                assert(g[i] == groups[i]);
            }
        }
        if on_count(groups, states) == groups.len() {
            assert forall|i: int| 0 <= i < groups.len() implies is_on(
                states,
                #[trigger] groups[i],
            ) by {
                if i < g.len() {
                    assert(g[i] == groups[i]);
                }
            }
        }
        if on_count(groups, states) == 0 {
            assert forall|i: int| 0 <= i < groups.len() implies !is_on(
                states,
                #[trigger] groups[i],
            ) by {
                if i < g.len() {
                    assert(g[i] == groups[i]);
                }
            }
        }
    }
}

/// Content of these groups is visible under a policy.
pub open spec fn seen_under(
    groups: Seq<ObjectId>,
    policy: OcVisibilityPolicy,
    states: OcStates,
) -> bool {
    visible(MembershipV { groups, policy, expression: None }, states)
}

/// Content is visible by how many of its groups are on: all, any, not all, or none,
/// as its policy asks.
pub proof fn law_policies(groups: Seq<ObjectId>, states: OcStates)
    requires
        groups.len() > 0,
    ensures
        ({
            let n = on_count(groups, states);
            &&& seen_under(groups, OcVisibilityPolicy::AllOn, states) == (n == groups.len())
            &&& seen_under(groups, OcVisibilityPolicy::AnyOn, states) == (n > 0)
            &&& seen_under(groups, OcVisibilityPolicy::AnyOff, states) == (n < groups.len())
            &&& seen_under(groups, OcVisibilityPolicy::AllOff, states) == (n == 0)
        }),
{
    lemma_on_count(groups, states);
    let n = on_count(groups, states);
    if n > 0 {
        let i = choose|i: int| 0 <= i < groups.len() && is_on(states, #[trigger] groups[i]);
        assert(is_on(states, groups[i]));
    }
    if n < groups.len() {
        let i = choose|i: int| 0 <= i < groups.len() && !is_on(states, #[trigger] groups[i]);
        assert(!is_on(states, groups[i]));
    }
    let on = MembershipV { groups, policy: OcVisibilityPolicy::AllOn, expression: None };
    let off = MembershipV { groups, policy: OcVisibilityPolicy::AllOff, expression: None };
    if n == groups.len() {
        assert forall|i: int| 0 <= i < on.groups.len() implies is_on(
            states,
            #[trigger] on.groups[i],
        ) by {
            assert(is_on(states, groups[i]));
        }
        assert(visible(on, states));
    }
    if n == 0 {
        assert forall|i: int| 0 <= i < off.groups.len() implies !is_on(
            states,
            #[trigger] off.groups[i],
        ) by {
            assert(!is_on(states, groups[i]));
        }
        assert(visible(off, states));
    }
    assert(seen_under(groups, OcVisibilityPolicy::AnyOn, states) == (n > 0));
    assert(seen_under(groups, OcVisibilityPolicy::AnyOff, states) == (n < groups.len()));
}

/// An expression is true by its parts.
pub proof fn law_expression_truth(a: ExprV, b: ExprV, id: ObjectId, states: OcStates)
    ensures
        holds(ExprV::And(seq![a, b]), states) == (holds(a, states) && holds(b, states)),
        holds(ExprV::Or(seq![a, b]), states) == (holds(a, states) || holds(b, states)),
        holds(ExprV::Not(Box::new(a)), states) == !holds(a, states),
        holds(ExprV::Group(id), states) == (states.state(id) == Some(true)),
        holds(ExprV::And(seq![]), states),
        !holds(ExprV::Or(seq![]), states),
{
    let s = seq![a, b];
    assert(s[0] == a && s[1] == b);
    assert forall|i: int| 0 <= i < 2 implies s[i] == a || s[i] == b by {}
    reveal_with_fuel(holds, 2);
    if holds(a, states) || holds(b, states) {
        let i = if holds(a, states) {
            0int
        } else {
            1int
        };
        assert(holds(s[i], states));
        assert(exists|i: int| 0 <= i < s.len() && holds(#[trigger] s[i], states));
    }
    if holds(ExprV::Or(s), states) {
        let i = choose|i: int| 0 <= i < s.len() && holds(#[trigger] s[i], states);
        assert(s[i] == a || s[i] == b);
    }
}

/// A group is off if the configuration lists it so; else on if it is listed so; else
/// it has the base state, where only `OFF` means off; a group that the document does
/// not have has none.
pub proof fn law_group_state(
    states: OcStates,
    groups: Seq<GroupV>,
    config: ConfigV,
    id: ObjectId,
    i: int,
)
    requires
        states_of(states, groups, config),
    ensures
        config.off.contains(id) ==> states.state(id) == Some(false),
        !config.off.contains(id) && config.on.contains(id) ==> states.state(id) == Some(true),
        !config.off.contains(id) && !config.on.contains(id) && 0 <= i < groups.len()
            && groups[i].id == id ==> states.state(id) == Some(
            config.base_state != OcBaseState::Off,
        ),
        !config.off.contains(id) && !config.on.contains(id) && (forall|k: int|
            0 <= k < groups.len() ==> (#[trigger] groups[k]).id != id) ==> states.state(id) is None,
{
    assert(states.state(id) == configured_state(groups, config, id));
    if config.off.contains(id) {
        let k = choose|k: int| 0 <= k < config.off.len() && config.off[k] == id;
        assert(listed(config.off, id));
    }
    if config.on.contains(id) {
        let k = choose|k: int| 0 <= k < config.on.len() && config.on[k] == id;
        assert(listed(config.on, id));
    }
    if listed(config.off, id) {
        let k = choose|k: int| 0 <= k < config.off.len() && #[trigger] config.off[k] == id;
        assert(config.off.contains(id));
    }
    if listed(config.on, id) {
        let k = choose|k: int| 0 <= k < config.on.len() && #[trigger] config.on[k] == id;
        assert(config.on.contains(id));
    }
    if 0 <= i < groups.len() && groups[i].id == id {
        assert(exists|k: int| 0 <= k < groups.len() && (#[trigger] groups[k]).id == id);
    }
}

proof fn lemma_types()
    ensures
        "OCG"@ != "OCMD"@,
{
    reveal_strlit("OCG");
    reveal_strlit("OCMD");
    assert("OCG"@.len() == 3 && "OCMD"@.len() == 4);
}

/// An annotation is seen if its group is on, or if its membership, which it may refer
/// to, lets it be seen.
pub proof fn law_annotation_layer(
    doc: DocV,
    annot: DictV,
    id: ObjectId,
    d: DictV,
    m: MembershipV,
    states: OcStates,
)
    ensures
        dict_get(annot, "OC"@) == Some(ObjV::Reference(id)) && doc.resolve(id) == Ok::<
            ObjV,
            Seq<char>,
        >(ObjV::Dict(d)) && dict_get(d, "Type"@) == Some(ObjV::Name("OCG"@)) ==> oc_visible(
            doc,
            annot,
            Some(states),
        ) == (states.state(id) == Some(true)),
        (dict_get(annot, "OC"@) == Some(ObjV::Dict(d)) || (dict_get(annot, "OC"@) == Some(
            ObjV::Reference(id),
        ) && doc.resolve(id) == Ok::<ObjV, Seq<char>>(ObjV::Dict(d)))) && dict_get(d, "Type"@)
            == Some(ObjV::Name("OCMD"@)) && membership_of(doc, d) == Ok::<
            Option<MembershipV>,
            Seq<char>,
        >(Some(m)) ==> oc_visible(doc, annot, Some(states)) == visible(m, states),
        oc_visible(doc, annot, None),
{
    lemma_types();
}

// ---------------------------------------------------------------- membership

/// References as items.
pub open spec fn id_items(ids: Seq<ObjectId>) -> Seq<ObjV> {
    Seq::new(ids.len(), |i: int| ObjV::Reference(ids[i]))
}

proof fn lemma_refs(ids: Seq<ObjectId>, n: int)
    requires
        0 <= n <= ids.len(),
    ensures
        refs_among(id_items(ids), n) == ids.take(n),
    decreases n,
{
    if n > 0 {
        lemma_refs(ids, n - 1);
        assert(id_items(ids)[n - 1] == ObjV::Reference(ids[n - 1]));
        assert(ids.take(n) =~= ids.take(n - 1).push(ids[n - 1]));
    } else {
        assert(ids.take(0) =~= Seq::empty());
    }
}

/// A list of groups is an array of references, which may be referred to, or a
/// reference to one group.
pub proof fn law_listed_groups(doc: DocV, d: DictV, key: Seq<char>, o: ObjV, ids: Seq<ObjectId>, g: DictV)
    ensures
        dict_get(d, key) == Some(o) && doc.deref(o) == Ok::<ObjV, Seq<char>>(
            ObjV::Array(id_items(ids)),
        ) ==> listed_groups(doc, d, key) == Ok::<Seq<ObjectId>, Seq<char>>(ids),
        ids.len() == 1 && dict_get(d, key) == Some(ObjV::Reference(ids[0])) && doc.deref(
            ObjV::Reference(ids[0]),
        ) == Ok::<ObjV, Seq<char>>(ObjV::Dict(g)) ==> listed_groups(doc, d, key) == Ok::<
            Seq<ObjectId>,
            Seq<char>,
        >(ids),
        dict_get(d, key) is None ==> listed_groups(doc, d, key) == Ok::<Seq<ObjectId>, Seq<char>>(
            Seq::empty(),
        ),
{
    lemma_refs(ids, ids.len() as int);
    assert(ids.take(ids.len() as int) =~= ids);
    if ids.len() == 1 {
        assert(seq![ids[0]] =~= ids);
    }
}

/// A membership has its groups, its policy and its expression from its dictionary.
pub proof fn law_membership(
    doc: DocV,
    d: DictV,
    groups: Seq<ObjectId>,
    policy: Seq<char>,
    o: ObjV,
    items: Seq<ObjV>,
    e: ExprV,
)
    requires
        dict_get(d, "Type"@) is None || dict_get(d, "Type"@) == Some(ObjV::Name("OCMD"@)),
        dict_get(d, "OCGs"@) is Some,
        listed_groups(doc, d, "OCGs"@) == Ok::<Seq<ObjectId>, Seq<char>>(groups),
    ensures
        dict_get(d, "VE"@) is None && dict_get(d, "P"@) == Some(ObjV::Name(policy))
            ==> membership_of(doc, d) == Ok::<Option<MembershipV>, Seq<char>>(
            Some(MembershipV { groups, policy: policy_named(policy), expression: None }),
        ),
        dict_get(d, "VE"@) is None && dict_get(d, "P"@) is None ==> membership_of(doc, d) == Ok::<
            Option<MembershipV>,
            Seq<char>,
        >(Some(MembershipV { groups, policy: OcVisibilityPolicy::AnyOn, expression: None })),
        dict_get(d, "VE"@) == Some(o) && doc.deref(o) == Ok::<ObjV, Seq<char>>(ObjV::Array(items))
            && expression_of(doc, items, 0) == Ok::<Option<ExprV>, Seq<char>>(Some(e)) ==> (
        membership_of(doc, d) matches Ok(Some(m)) && m.expression == Some(e) && m.groups == groups),
{
}

/// The operator that an expression has, and its operands.
pub open spec fn operator_of(e: ExprV) -> Seq<char> {
    match e {
        ExprV::And(_) => "And"@,
        ExprV::Or(_) => "Or"@,
        ExprV::Not(_) => "Not"@,
        ExprV::Group(_) => ""@,
    }
}

/// The operands of an expression.
pub open spec fn parts_of(e: ExprV) -> Seq<ExprV> {
    match e {
        ExprV::And(v) => v,
        ExprV::Or(v) => v,
        ExprV::Not(b) => seq![*b],
        ExprV::Group(_) => Seq::empty(),
    }
}

/// An object shows an operand: a reference to a group, or an array that is an
/// expression of its own, no more than 32 levels below the first.
pub open spec fn operand_shown(doc: DocV, o: ObjV, e: ExprV, depth: int) -> bool
    decreases e, 1int,
{
    match e {
        ExprV::Group(id) => o == ObjV::Reference(id) && (doc.deref(o) matches Ok(v) && v is Dict),
        _ => doc.deref(o) matches Ok(ObjV::Array(items)) && expression_shown(
            doc,
            items,
            e,
            depth,
        ),
    }
}

/// An array shows an expression.
pub open spec fn expression_shown(doc: DocV, items: Seq<ObjV>, e: ExprV, depth: int) -> bool
    decreases e, 0int,
{
    &&& 0 <= depth <= 32
    &&& items.len() > 0
    &&& match e {
        ExprV::And(v) => items[0] == ObjV::Name("And"@) && items.len() == v.len() + 1 && (forall|
            i: int,
        |
            0 <= i < v.len() ==> operand_shown(doc, items[i + 1], #[trigger] v[i], depth + 1)),
        ExprV::Or(v) => items[0] == ObjV::Name("Or"@) && items.len() == v.len() + 1 && (forall|
            i: int,
        |
            0 <= i < v.len() ==> operand_shown(doc, items[i + 1], #[trigger] v[i], depth + 1)),
        ExprV::Not(b) => items[0] == ObjV::Name("Not"@) && items.len() == 2 && operand_shown(
            doc,
            items[1],
            *b,
            depth + 1,
        ),
        ExprV::Group(_) => false,
    }
}

proof fn lemma_operators()
    ensures
        "And"@ != "Or"@,
        "And"@ != "Not"@,
        "Or"@ != "Not"@,
{
    reveal_strlit("And");
    reveal_strlit("Or");
    reveal_strlit("Not");
    assert("And"@.len() == 3 && "Or"@.len() == 2 && "Not"@.len() == 3);
    assert("And"@[0] == 'A' && "Not"@[0] == 'N');
}

proof fn lemma_operands(doc: DocV, items: Seq<ObjV>, v: Seq<ExprV>, n: int, depth: int, whole: ExprV)
    requires
        0 <= n <= v.len(),
        items.len() == v.len() + 1,
        0 <= depth <= 32,
        forall|i: int| 0 <= i < v.len() ==> decreases_to!(whole => #[trigger] v[i]),
        forall|i: int|
            0 <= i < v.len() ==> operand_shown(doc, items[i + 1], #[trigger] v[i], depth + 1),
    ensures
        operands(doc, items, n + 1, depth) == Ok::<Seq<ExprV>, Seq<char>>(v.take(n)),
    decreases whole, 0int, n,
{
    if n > 0 {
        lemma_operands(doc, items, v, n - 1, depth, whole);
        let e = v[n - 1];
        assert(operand_shown(doc, items[n - 1 + 1], v[n - 1], depth + 1));
        assert(v.take(n) =~= v.take(n - 1).push(e));
        if !(e is Group) {
            assert(decreases_to!(whole => v[n - 1]));
            law_expression_read(doc, doc.deref(items[n])->Ok_0->Array_0, e, depth + 1);
        }
    } else {
        assert(v.take(0) =~= Seq::empty());
    }
}

/// An expression written as an array is read back, up to 32 levels deep; parts of it
/// may be referred to.
pub proof fn law_expression_read(doc: DocV, items: Seq<ObjV>, e: ExprV, depth: int)
    requires
        expression_shown(doc, items, e, depth),
    ensures
        expression_of(doc, items, depth) == Ok::<Option<ExprV>, Seq<char>>(Some(e)),
    decreases e, 1int, 0int,
{
    lemma_operators();
    match e {
        ExprV::And(v) => {
            lemma_operands(doc, items, v, v.len() as int, depth, e);
            assert(v.take(v.len() as int) =~= v);
        },
        ExprV::Or(v) => {
            lemma_operands(doc, items, v, v.len() as int, depth, e);
            assert(v.take(v.len() as int) =~= v);
        },
        ExprV::Not(b) => {
            let v = seq![*b];
            assert(v[0] == *b);
            lemma_operands(doc, items, v, 1, depth, e);
            assert(v.take(1) =~= v);
        },
        ExprV::Group(_) => {},
    }
}

// ------------------------------------------------------------- configuration

/// A configuration has each of its parts from the entry of that name.
#[verifier::rlimit(50)]
pub proof fn law_configuration(
    doc: DocV,
    d: DictV,
    on: Seq<ObjectId>,
    off: Seq<ObjectId>,
    locked: Seq<ObjectId>,
    base: Seq<char>,
    name: Seq<u8>,
    creator: Seq<u8>,
)
    requires
        listed_groups(doc, d, "ON"@) == Ok::<Seq<ObjectId>, Seq<char>>(on),
        listed_groups(doc, d, "OFF"@) == Ok::<Seq<ObjectId>, Seq<char>>(off),
        listed_groups(doc, d, "Locked"@) == Ok::<Seq<ObjectId>, Seq<char>>(locked),
    ensures
        config_of(doc, d) matches Ok(c) ==> {
            &&& c.on == on
            &&& c.off == off
            &&& c.locked == locked
            &&& dict_get(d, "BaseState"@) == Some(ObjV::Name(base)) ==> c.base_state
                == base_state_named(base)
            &&& dict_get(d, "BaseState"@) is None ==> c.base_state == OcBaseState::On
            &&& dict_get(d, "Name"@) == Some(ObjV::LiteralString(name)) ==> c.name == Some(
                text_of_bytes(name),
            )
            &&& dict_get(d, "Creator"@) == Some(ObjV::LiteralString(creator)) ==> c.creator == Some(
                text_of_bytes(creator),
            )
            &&& dict_get(d, "ListMode"@) == Some(ObjV::Name("VisiblePages"@)) ==> c.list_mode
                == OcListMode::VisiblePages
            &&& dict_get(d, "ListMode"@) is None ==> c.list_mode == OcListMode::AllPages
            &&& dict_get(d, "Intent"@) is None ==> c.intents == seq!["View"@]
            &&& dict_get(d, "Order"@) is None ==> c.order.len() == 0
            &&& dict_get(d, "RBGroups"@) is None ==> c.rb_groups.len() == 0
        },
        dict_get(d, "Intent"@) is None && dict_get(d, "Order"@) is None && dict_get(d, "RBGroups"@)
            is None ==> config_of(doc, d) is Ok,
{
}

/// A list of layers and the sets of groups of a configuration may be referred to.
pub proof fn law_configuration_lists(
    doc: DocV,
    d: DictV,
    o: ObjV,
    items: Seq<ObjV>,
    r: ObjV,
    sets: Seq<ObjV>,
)
    ensures
        config_of(doc, d) matches Ok(c) ==> {
            &&& dict_get(d, "Order"@) == Some(o) && doc.deref(o) == Ok::<ObjV, Seq<char>>(
                ObjV::Array(items),
            ) ==> c.order == order_items(items, items.len() as int, 0)
            &&& dict_get(d, "RBGroups"@) == Some(r) && doc.deref(r) == Ok::<ObjV, Seq<char>>(
                ObjV::Array(sets),
            ) ==> radio_sets(doc, sets, sets.len() as int) == Ok::<_, Seq<char>>(c.rb_groups)
        },
{
}

/// Sets of groups are the references of each array, in order.
pub proof fn law_radio_sets(doc: DocV, items: Seq<ObjV>, sets: Seq<Seq<ObjectId>>, n: int)
    requires
        items.len() == sets.len(),
        0 <= n <= items.len(),
        forall|i: int|
            0 <= i < items.len() ==> (#[trigger] sets[i]).len() > 0 && doc.deref(items[i]) == Ok::<
                ObjV,
                Seq<char>,
            >(ObjV::Array(id_items(sets[i]))),
    ensures
        radio_sets(doc, items, n) == Ok::<Seq<Seq<ObjectId>>, Seq<char>>(sets.take(n)),
    decreases n,
{
    if n > 0 {
        law_radio_sets(doc, items, sets, n - 1);
        let s = sets[n - 1];
        assert(s.len() > 0);
        lemma_refs(s, s.len() as int);
        assert(s.take(s.len() as int) =~= s);
        assert(sets.take(n) =~= sets.take(n - 1).push(s));
    } else {
        assert(sets.take(0) =~= Seq::empty());
    }
}

/// An item of a list of layers, written.
pub open spec fn order_shown(o: ObjV, v: OrderV, depth: int) -> bool
    decreases v, 1int,
{
    match v {
        OrderV::Group(id) => o == ObjV::Reference(id),
        OrderV::Subtree { label: Some(text), items } => o matches ObjV::Array(inner) && inner.len()
            == items.len() + 1 && ((inner[0] matches ObjV::LiteralString(b) && text_of_bytes(b)
            == text) || (inner[0] matches ObjV::HexString(b) && text_of_bytes(b) == text))
            && depth < 32 && (forall|i: int|
            0 <= i < items.len() ==> order_shown(inner[i + 1], #[trigger] items[i], depth + 1)),
        OrderV::Subtree { label: None, items } => o matches ObjV::Array(inner) && inner.len()
            == items.len() && depth < 32 && (inner.len() > 0 ==> !(inner[0] is LiteralString) && !(
        inner[0] is HexString)) && (forall|i: int|
            0 <= i < items.len() ==> order_shown(inner[i], #[trigger] items[i], depth + 1)),
    }
}

/// A list of layers is read item by item: a reference is a group, and an array a list
/// of its own, with the string in front of it as its label.
pub proof fn law_order(items: Seq<ObjV>, vs: Seq<OrderV>, n: int, depth: int)
    requires
        items.len() == vs.len(),
        0 <= n <= vs.len(),
        0 <= depth <= 32,
        forall|i: int| 0 <= i < vs.len() ==> order_shown(items[i], #[trigger] vs[i], depth),
    ensures
        order_items(items, n, depth) == vs.take(n),
    decreases 33 - depth, n,
{
    if n > 0 {
        law_order(items, vs, n - 1, depth);
        let v = vs[n - 1];
        assert(order_shown(items[n - 1], vs[n - 1], depth));
        assert(vs.take(n) =~= vs.take(n - 1).push(v));
        match v {
            OrderV::Group(_) => {},
            OrderV::Subtree { label: Some(text), items: sub } => {
                let inner = items[n - 1]->Array_0;
                let rest = inner.skip(1);
                assert forall|i: int| 0 <= i < sub.len() implies order_shown(
                    rest[i],
                    #[trigger] sub[i],
                    depth + 1,
                ) by {
                    assert(rest[i] == inner[i + 1]);
                }
                law_order(rest, sub, sub.len() as int, depth + 1);
                assert(sub.take(sub.len() as int) =~= sub);
            },
            OrderV::Subtree { label: None, items: sub } => {
                let inner = items[n - 1]->Array_0;
                law_order(inner, sub, sub.len() as int, depth + 1);
                assert(sub.take(sub.len() as int) =~= sub);
            },
        }
    } else {
        assert(vs.take(0) =~= Seq::empty());
    }
}

// -------------------------------------------------------------------- groups

/// A group has its name, its intents and its usage from its dictionary; a dictionary
/// of another type is no group.
#[verifier::rlimit(50)]
pub proof fn law_group(doc: DocV, id: ObjectId, d: DictV, name: Seq<u8>, intent: Seq<char>, t: Seq<char>)
    ensures
        (dict_get(d, "Type"@) is None || dict_get(d, "Type"@) == Some(ObjV::Name("OCG"@)))
            && group_of(doc, id, d) is Ok ==> (group_of(doc, id, d) matches Ok(Some(g)) && {
            &&& g.id == id
            &&& dict_get(d, "Name"@) == Some(ObjV::LiteralString(name)) || dict_get(d, "Name"@)
                == Some(ObjV::HexString(name)) ==> g.name == text_of_bytes(name)
            &&& dict_get(d, "Intent"@) == Some(ObjV::Name(intent)) ==> g.intents == seq![intent]
            &&& dict_get(d, "Intent"@) is None ==> g.intents.len() == 0
            &&& dict_get(d, "Usage"@) is None ==> g.usage is None
            &&& usage_of(doc, d) == Ok::<_, Seq<char>>(g.usage)
        }),
        (dict_get(d, "Type"@) is None || dict_get(d, "Type"@) == Some(ObjV::Name("OCG"@)))
            && dict_get(d, "Intent"@) is None && dict_get(d, "Usage"@) is None ==> group_of(
            doc,
            id,
            d,
        ) is Ok,
        dict_get(d, "Type"@) == Some(ObjV::Name(t)) && t != "OCG"@ ==> group_of(doc, id, d) == Ok::<
            Option<GroupV>,
            Seq<char>,
        >(None),
{
    reveal(DocV::deref);
    reveal_with_fuel(DocV::deref_from, 2);
}

/// Intents are a name or the names of an array, in order.
pub proof fn law_intents(doc: DocV, d: DictV, o: ObjV, names: Seq<Seq<char>>)
    requires
        dict_get(d, "Intent"@) == Some(o),
    ensures
        doc.deref(o) == Ok::<ObjV, Seq<char>>(
            ObjV::Array(Seq::new(names.len(), |i: int| ObjV::Name(names[i]))),
        ) ==> intents_of(doc, d) == Ok::<Seq<Seq<char>>, Seq<char>>(names),
        names.len() == 1 && doc.deref(o) == Ok::<ObjV, Seq<char>>(ObjV::Name(names[0]))
            ==> intents_of(doc, d) == Ok::<Seq<Seq<char>>, Seq<char>>(names),
{
    let items = Seq::new(names.len(), |i: int| ObjV::Name(names[i]));
    lemma_names(items, names, names.len() as int);
    assert(names.take(names.len() as int) =~= names);
    if names.len() == 1 {
        assert(seq![names[0]] =~= names);
    }
}

proof fn lemma_names(items: Seq<ObjV>, names: Seq<Seq<char>>, n: int)
    requires
        items == Seq::new(names.len(), |i: int| ObjV::Name(names[i])),
        0 <= n <= names.len(),
    ensures
        names_among(items, n) == names.take(n),
    decreases n,
{
    if n > 0 {
        lemma_names(items, names, n - 1);
        assert(names.take(n) =~= names.take(n - 1).push(names[n - 1]));
    } else {
        assert(names.take(0) =~= Seq::empty());
    }
}

/// The entry of a usage is this dictionary, itself or by reference; or there is none.
pub open spec fn usage_has(doc: DocV, u: DictV, key: Seq<char>, v: Option<DictV>) -> bool {
    match (dict_get(u, key), v) {
        (None, None) => true,
        (Some(o), Some(v)) => doc.deref(o) == Ok::<ObjV, Seq<char>>(ObjV::Dict(v)),
        _ => false,
    }
}

/// The entry says `ON` or `OFF`.
pub open spec fn switch(d: Option<DictV>, key: Seq<char>, on: bool) -> bool {
    d matches Some(d) && dict_get(d, key) == Some(
        ObjV::Name(
            if on {
                "ON"@
            } else {
                "OFF"@
            },
        ),
    )
}

/// A usage has each of its parts from the dictionary of that name.
#[verifier::rlimit(50)]
pub proof fn law_usage(
    doc: DocV,
    d: DictV,
    o: ObjV,
    u: DictV,
    language: Option<DictV>,
    zoom: Option<DictV>,
    print: Option<DictV>,
    view: Option<DictV>,
    export: Option<DictV>,
    element: Option<DictV>,
    on: bool,
    n: NumV,
    name: Seq<char>,
    b: Seq<u8>,
)
    requires
        dict_get(d, "Usage"@) == Some(o),
        doc.deref(o) == Ok::<ObjV, Seq<char>>(ObjV::Dict(u)),
        usage_has(doc, u, "Language"@, language),
        usage_has(doc, u, "Zoom"@, zoom),
        usage_has(doc, u, "Print"@, print),
        usage_has(doc, u, "View"@, view),
        usage_has(doc, u, "Export"@, export),
        usage_has(doc, u, "PageElement"@, element),
    ensures
        usage_of(doc, d) matches Ok(Some(r)) && {
            &&& (language matches Some(l) && dict_get(l, "Lang"@) == Some(ObjV::LiteralString(b))) ==> r.language == Some(text_of_bytes(b))
            &&& switch(language, "Preferred"@, on) ==> r.language_preferred == Some(on)
            &&& switch(print, "PrintState"@, on) ==> r.print_state == Some(on)
            &&& switch(view, "ViewState"@, on) ==> r.view_state == Some(on)
            &&& switch(export, "ExportState"@, on) ==> r.export_state == Some(on)
            &&& (zoom matches Some(z) && dict_get(z, "min"@) == Some(written(n))) ==> r.zoom_min
                == Some(n)
            &&& (zoom matches Some(z) && dict_get(z, "max"@) == Some(written(n))) ==> r.zoom_max
                == Some(n)
            &&& (print matches Some(p) && dict_get(p, "Subtype"@) == Some(ObjV::Name(name))) ==> r.print_subtype == Some(name)
            &&& (element matches Some(p) && dict_get(p, "Subtype"@) == Some(ObjV::Name(name))) ==> r.page_element_subtype == Some(name)
            &&& view is None ==> r.view_state is None
            &&& export is None ==> r.export_state is None
            &&& print is None ==> r.print_state is None && r.print_subtype is None
            &&& zoom is None ==> r.zoom_min is None && r.zoom_max is None
        },
{
    reveal_strlit("ON");
    reveal_strlit("OFF");
    assert("ON"@.len() == 2 && "OFF"@.len() == 3);
}

// ------------------------------------------------------------------ document

/// The groups of a document are those of its list, in order.
pub proof fn law_groups(doc: DocV, items: Seq<ObjV>, groups: Seq<GroupV>, n: int)
    requires
        items.len() == groups.len(),
        0 <= n <= items.len(),
        forall|i: int|
            0 <= i < items.len() ==> listed_group(doc, #[trigger] items[i]) == Ok::<
                Option<GroupV>,
                Seq<char>,
            >(Some(groups[i])),
    ensures
        groups_among(doc, items, n) == Ok::<Seq<GroupV>, Seq<char>>(groups.take(n)),
    decreases n,
{
    if n > 0 {
        law_groups(doc, items, groups, n - 1);
        assert(groups.take(n) =~= groups.take(n - 1).push(groups[n - 1]));
    } else {
        assert(groups.take(0) =~= Seq::empty());
    }
}

/// A reference to the dictionary of a group stands for that group.
pub proof fn law_listed_group(doc: DocV, id: ObjectId, d: DictV)
    requires
        doc.resolve(id) == Ok::<ObjV, Seq<char>>(ObjV::Dict(d)),
    ensures
        listed_group(doc, ObjV::Reference(id)) == group_of(doc, id, d),
{
}

/// Configurations are read in order.
pub proof fn law_configurations(doc: DocV, items: Seq<ObjV>, configs: Seq<ConfigV>, n: int)
    requires
        items.len() == configs.len(),
        0 <= n <= items.len(),
        forall|i: int|
            0 <= i < items.len() ==> config_value(doc, #[trigger] items[i]) == Ok::<
                Option<ConfigV>,
                Seq<char>,
            >(Some(configs[i])),
    ensures
        configs_among(doc, items, n) == Ok::<Seq<ConfigV>, Seq<char>>(configs.take(n)),
    decreases n,
{
    if n > 0 {
        law_configurations(doc, items, configs, n - 1);
        assert(configs.take(n) =~= configs.take(n - 1).push(configs[n - 1]));
    } else {
        assert(configs.take(0) =~= Seq::empty());
    }
}

/// The optional content of a document is what `/OCProperties` says: its groups, its
/// default configuration and the alternate ones, each of which may be referred to.
#[verifier::rlimit(50)]
pub proof fn law_optional_content(
    doc: DocV,
    catalog: DictV,
    o: ObjV,
    ocp: DictV,
    list: ObjV,
    items: Seq<ObjV>,
    groups: Seq<GroupV>,
    dd: ObjV,
    config: ConfigV,
    alts: ObjV,
    alt_items: Seq<ObjV>,
    alternates: Seq<ConfigV>,
)
    requires
        doc.catalog() == Ok::<ObjV, Seq<char>>(ObjV::Dict(catalog)),
        dict_get(catalog, "OCProperties"@) == Some(o),
        doc.deref(o) == Ok::<ObjV, Seq<char>>(ObjV::Dict(ocp)),
        dict_get(ocp, "OCGs"@) == Some(list),
        doc.deref(list) == Ok::<ObjV, Seq<char>>(ObjV::Array(items)),
        groups_among(doc, items, items.len() as int) == Ok::<Seq<GroupV>, Seq<char>>(groups),
        dict_get(ocp, "D"@) == Some(dd),
        config_value(doc, dd) == Ok::<Option<ConfigV>, Seq<char>>(Some(config)),
        dict_get(ocp, "Configs"@) == Some(alts),
        doc.deref(alts) == Ok::<ObjV, Seq<char>>(ObjV::Array(alt_items)),
        configs_among(doc, alt_items, alt_items.len() as int) == Ok::<Seq<ConfigV>, Seq<char>>(
            alternates,
        ),
    ensures
        document_content(doc) == Ok::<Option<ContentV>, Seq<char>>(
            Some(ContentV { groups, default_config: config, alternate_configs: alternates }),
        ),
{
}

/// A configuration is a dictionary, which may be referred to.
pub proof fn law_configuration_value(doc: DocV, o: ObjV, d: DictV, c: ConfigV, ocp: DictV)
    ensures
        doc.deref(o) == Ok::<ObjV, Seq<char>>(ObjV::Dict(d)) && config_of(doc, d) == Ok::<
            ConfigV,
            Seq<char>,
        >(c) ==> config_value(doc, o) == Ok::<Option<ConfigV>, Seq<char>>(Some(c)),
        dict_get(ocp, "OCGs"@) is None ==> content_of(doc, ocp) == Ok::<
            Option<ContentV>,
            Seq<char>,
        >(None),
{
}

} // verus!
