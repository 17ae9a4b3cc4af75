//! Optional content: groups of content that can be shown and hidden.

use std::collections::HashMap;
use vstd::prelude::*;
use crate::describe::{got, unexpected};
use crate::document::{cache_key, DocV, DocumentReader};
use crate::encoding::opt_text;
use crate::error::PdfError;
use crate::number::{number_of, object_number, opt_number, NumV, Number};
use crate::objects::{dict_get, lemma_array_view, objs_view, Dict, DictV, ObjV, Object, ObjectId};
use crate::pages::{dict_name, is_named};
use crate::text::{same_text, texts};
use crate::textstring::{decode_text_bytes, text_of_bytes};

verus! {

broadcast use vstd::std_specs::hash::group_hash_axioms;

// ------------------------------------------------------------------ types

/// When the content of a membership is visible.
#[derive(Debug, Clone, Copy, PartialEq, Eq, Structural)]
pub enum OcVisibilityPolicy {
    /// When all groups are on.
    AllOn,
    /// When any group is on.
    AnyOn,
    /// When any group is off.
    AnyOff,
    /// When all groups are off.
    AllOff,
}

/// The policy that a name stands for; any other name means `AnyOn`.
pub open spec fn policy_named(name: Seq<char>) -> OcVisibilityPolicy {
    if name == "AllOn"@ {
        OcVisibilityPolicy::AllOn
    } else if name == "AnyOff"@ {
        OcVisibilityPolicy::AnyOff
    } else if name == "AllOff"@ {
        OcVisibilityPolicy::AllOff
    } else {
        OcVisibilityPolicy::AnyOn
    }
}

impl OcVisibilityPolicy {
    /// The policy that a name stands for; any other name means `AnyOn`.
    pub fn from_name(name: &str) -> (r: OcVisibilityPolicy)
        ensures
            r == policy_named(name@),
    {
        if same_text(name, "AllOn") {
            OcVisibilityPolicy::AllOn
        } else if same_text(name, "AnyOff") {
            OcVisibilityPolicy::AnyOff
        } else if same_text(name, "AllOff") {
            OcVisibilityPolicy::AllOff
        } else {
            OcVisibilityPolicy::AnyOn
        }
    }
}

/// The state of groups that a configuration does not list.
#[derive(Debug, Clone, Copy, PartialEq, Eq, Structural)]
pub enum OcBaseState {
    /// On.
    On,
    /// Off.
    Off,
    /// As it was before.
    Unchanged,
}

impl Default for OcBaseState {
    /// On.
    fn default() -> (r: OcBaseState)
        ensures
            r == OcBaseState::On,
    {
        OcBaseState::On
    }
}

/// The base state that a name stands for; any other name means `On`.
pub open spec fn base_state_named(name: Seq<char>) -> OcBaseState {
    if name == "OFF"@ {
        OcBaseState::Off
    } else if name == "Unchanged"@ {
        OcBaseState::Unchanged
    } else {
        OcBaseState::On
    }
}

impl OcBaseState {
    /// The base state that a name stands for; any other name means `On`.
    pub fn from_name(name: &str) -> (r: OcBaseState)
        ensures
            r == base_state_named(name@),
    {
        if same_text(name, "OFF") {
            OcBaseState::Off
        } else if same_text(name, "Unchanged") {
            OcBaseState::Unchanged
        } else {
            OcBaseState::On
        }
    }
}

/// Which groups a list of layers shows.
#[derive(Debug, Clone, Copy, PartialEq, Eq, Structural)]
pub enum OcListMode {
    /// All of them.
    AllPages,
    /// Those on visible pages.
    VisiblePages,
}

impl Default for OcListMode {
    /// All of them.
    fn default() -> (r: OcListMode)
        ensures
            r == OcListMode::AllPages,
    {
        OcListMode::AllPages
    }
}

/// How a group is meant to be used.
#[derive(Debug, Clone)]
pub struct OcUsage {
    /// `/Language /Lang`.
    pub language: Option<String>,
    /// `/Language /Preferred`.
    pub language_preferred: Option<bool>,
    /// `/Zoom /min`.
    pub zoom_min: Option<Number>,
    /// `/Zoom /max`.
    pub zoom_max: Option<Number>,
    /// `/Print /Subtype`.
    pub print_subtype: Option<String>,
    /// `/Print /PrintState`.
    pub print_state: Option<bool>,
    /// `/View /ViewState`.
    pub view_state: Option<bool>,
    /// `/Export /ExportState`.
    pub export_state: Option<bool>,
    /// `/PageElement /Subtype`.
    pub page_element_subtype: Option<String>,
}

/// How a group is meant to be used, as a mathematical value.
pub struct UsageV {
    pub language: Option<Seq<char>>,
    pub language_preferred: Option<bool>,
    pub zoom_min: Option<NumV>,
    pub zoom_max: Option<NumV>,
    pub print_subtype: Option<Seq<char>>,
    pub print_state: Option<bool>,
    pub view_state: Option<bool>,
    pub export_state: Option<bool>,
    pub page_element_subtype: Option<Seq<char>>,
}

impl View for OcUsage {
    type V = UsageV;

    open spec fn view(&self) -> UsageV {
        UsageV {
            language: opt_text(self.language),
            language_preferred: self.language_preferred,
            zoom_min: opt_number(self.zoom_min),
            zoom_max: opt_number(self.zoom_max),
            print_subtype: opt_text(self.print_subtype),
            print_state: self.print_state,
            view_state: self.view_state,
            export_state: self.export_state,
            page_element_subtype: opt_text(self.page_element_subtype),
        }
    }
}

/// A group of content.
#[derive(Debug, Clone)]
pub struct OptionalContentGroup {
    pub id: ObjectId,
    /// `/Name`.
    pub name: String,
    /// `/Intent`.
    pub intents: Vec<String>,
    /// `/Usage`.
    pub usage: Option<OcUsage>,
}

/// A group of content as a mathematical value.
pub struct GroupV {
    pub id: ObjectId,
    pub name: Seq<char>,
    pub intents: Seq<Seq<char>>,
    pub usage: Option<UsageV>,
}

impl View for OptionalContentGroup {
    type V = GroupV;

    open spec fn view(&self) -> GroupV {
        GroupV {
            id: self.id,
            name: self.name@,
            intents: texts(self.intents@),
            usage: match self.usage {
                Some(u) => Some(u@),
                None => None,
            },
        }
    }
}

/// Groups as mathematical values.
pub open spec fn groups_view(s: Seq<OptionalContentGroup>) -> Seq<GroupV> {
    s.map_values(|g: OptionalContentGroup| g@)
}

/// An item of a list of layers.
#[derive(Debug)]
pub enum OcOrderItem {
    /// A group.
    Group(ObjectId),
    /// A list of its own, with a label or without.
    Subtree { label: Option<String>, items: Vec<OcOrderItem> },
}

/// An item of a list of layers as a mathematical value.
pub enum OrderV {
    Group(ObjectId),
    Subtree { label: Option<Seq<char>>, items: Seq<OrderV> },
}

/// The value that an item stands for.
pub open spec fn order_view(o: OcOrderItem) -> OrderV
    decreases o,
{
    match o {
        OcOrderItem::Group(id) => OrderV::Group(id),
        OcOrderItem::Subtree { label, items } => OrderV::Subtree {
            label: opt_text(label),
            items: Seq::new(
                items@.len(),
                |i: int|
                    if 0 <= i < items@.len() {
                        order_view(items@[i])
                    } else {
                        arbitrary()
                    },
            ),
        },
    }
}

impl View for OcOrderItem {
    type V = OrderV;

    open spec fn view(&self) -> OrderV {
        order_view(*self)
    }
}

/// Items as mathematical values.
pub open spec fn orders_view(s: Seq<OcOrderItem>) -> Seq<OrderV> {
    s.map_values(|o: OcOrderItem| o@)
}

/// A configuration: which groups are on, and how they are listed.
#[derive(Debug)]
pub struct OcConfig {
    pub name: Option<String>,
    pub creator: Option<String>,
    pub base_state: OcBaseState,
    /// Groups that are on.
    pub on: Vec<ObjectId>,
    /// Groups that are off.
    pub off: Vec<ObjectId>,
    pub intents: Vec<String>,
    pub order: Vec<OcOrderItem>,
    pub list_mode: OcListMode,
    /// Sets of groups of which one at most is on.
    pub rb_groups: Vec<Vec<ObjectId>>,
    /// Groups that cannot be switched.
    pub locked: Vec<ObjectId>,
}

/// A configuration as a mathematical value.
pub struct ConfigV {
    pub name: Option<Seq<char>>,
    pub creator: Option<Seq<char>>,
    pub base_state: OcBaseState,
    pub on: Seq<ObjectId>,
    pub off: Seq<ObjectId>,
    pub intents: Seq<Seq<char>>,
    pub order: Seq<OrderV>,
    pub list_mode: OcListMode,
    pub rb_groups: Seq<Seq<ObjectId>>,
    pub locked: Seq<ObjectId>,
}

/// Sets of groups as mathematical values.
pub open spec fn id_sets(s: Seq<Vec<ObjectId>>) -> Seq<Seq<ObjectId>> {
    s.map_values(|v: Vec<ObjectId>| v@)
}

impl View for OcConfig {
    type V = ConfigV;

    open spec fn view(&self) -> ConfigV {
        ConfigV {
            name: opt_text(self.name),
            creator: opt_text(self.creator),
            base_state: self.base_state,
            on: self.on@,
            off: self.off@,
            intents: texts(self.intents@),
            order: orders_view(self.order@),
            list_mode: self.list_mode,
            rb_groups: id_sets(self.rb_groups@),
            locked: self.locked@,
        }
    }
}

/// A configuration that says nothing.
pub open spec fn empty_config() -> ConfigV {
    ConfigV {
        name: None,
        creator: None,
        base_state: OcBaseState::On,
        on: Seq::empty(),
        off: Seq::empty(),
        intents: Seq::empty(),
        order: Seq::empty(),
        list_mode: OcListMode::AllPages,
        rb_groups: Seq::empty(),
        locked: Seq::empty(),
    }
}

impl Default for OcConfig {
    /// A configuration that says nothing.
    fn default() -> (r: OcConfig)
        ensures
            r@ == empty_config(),
    {
        let r: OcConfig = OcConfig {
            name: None,
            creator: None,
            base_state: OcBaseState::On,
            on: Vec::new(),
            off: Vec::new(),
            intents: Vec::new(),
            order: Vec::new(),
            list_mode: OcListMode::AllPages,
            rb_groups: Vec::new(),
            locked: Vec::new(),
        };
        proof {
            assert(r@.intents =~= Seq::empty());
            assert(r@.order =~= Seq::empty());
            assert(r@.rb_groups =~= Seq::empty());
        }
        r
    }
}

/// An expression over groups.
#[derive(Debug)]
pub enum OcVisibilityExpression {
    /// All are true.
    And(Vec<OcVisibilityExpression>),
    /// Any is true.
    Or(Vec<OcVisibilityExpression>),
    /// It is false.
    Not(Box<OcVisibilityExpression>),
    /// The group is on.
    Group(ObjectId),
}

/// An expression over groups as a mathematical value.
pub enum ExprV {
    And(Seq<ExprV>),
    Or(Seq<ExprV>),
    Not(Box<ExprV>),
    Group(ObjectId),
}

/// The value that an expression stands for.
pub open spec fn expr_view(e: OcVisibilityExpression) -> ExprV
    decreases e,
{
    match e {
        OcVisibilityExpression::And(v) => ExprV::And(
            Seq::new(
                v@.len(),
                |i: int|
                    if 0 <= i < v@.len() {
                        expr_view(v@[i])
                    } else {
                        arbitrary()
                    },
            ),
        ),
        OcVisibilityExpression::Or(v) => ExprV::Or(
            Seq::new(
                v@.len(),
                |i: int|
                    if 0 <= i < v@.len() {
                        expr_view(v@[i])
                    } else {
                        arbitrary()
                    },
            ),
        ),
        OcVisibilityExpression::Not(b) => ExprV::Not(Box::new(expr_view(*b))),
        OcVisibilityExpression::Group(id) => ExprV::Group(id),
    }
}

impl View for OcVisibilityExpression {
    type V = ExprV;

    open spec fn view(&self) -> ExprV {
        expr_view(*self)
    }
}

/// Expressions as mathematical values.
pub open spec fn exprs_view(s: Seq<OcVisibilityExpression>) -> Seq<ExprV> {
    s.map_values(|e: OcVisibilityExpression| e@)
}

/// What optional expressions stand for.
pub open spec fn opt_expr(e: Option<OcVisibilityExpression>) -> Option<ExprV> {
    match e {
        Some(v) => Some(v@),
        None => None,
    }
}

/// The groups that content belongs to, and when it is visible.
#[derive(Debug)]
pub struct OcMembership {
    pub groups: Vec<ObjectId>,
    pub policy: OcVisibilityPolicy,
    /// An expression that counts in place of the policy.
    pub visibility_expression: Option<OcVisibilityExpression>,
}

/// A membership as a mathematical value.
pub struct MembershipV {
    pub groups: Seq<ObjectId>,
    pub policy: OcVisibilityPolicy,
    pub expression: Option<ExprV>,
}

impl View for OcMembership {
    type V = MembershipV;

    open spec fn view(&self) -> MembershipV {
        MembershipV {
            groups: self.groups@,
            policy: self.policy,
            expression: opt_expr(self.visibility_expression),
        }
    }
}

// ----------------------------------------------------------------- states

/// The states of groups.
pub struct OcStates {
    map: HashMap<u64, bool>,
}

impl OcStates {
    /// The state of a group, if it has one.
    pub closed spec fn state(&self, id: ObjectId) -> Option<bool> {
        if self.map@.contains_key(cache_key(id)) {
            Some(self.map@[cache_key(id)])
        } else {
            None
        }
    }

    /// No group has a state.
    pub fn new() -> (r: OcStates)
        ensures
            forall|id: ObjectId| #[trigger] r.state(id) is None,
    {
        OcStates { map: HashMap::new() }
    }

    /// The state of a group, if it has one.
    pub fn get(&self, id: &ObjectId) -> (r: Option<bool>)
        ensures
            r == self.state(*id),
    {
        let key: u64 = id.number as u64 * 65536 + id.generation as u64;
        match self.map.get(&key) {
            Some(b) => Some(*b),
            None => None,
        }
    }

    /// Give a group a state.
    pub fn insert(&mut self, id: ObjectId, on: bool)
        ensures
            forall|other: ObjectId|
                #[trigger] final(self).state(other) == if other == id {
                    Some(on)
                } else {
                    old(self).state(other)
                },
    {
        let key: u64 = id.number as u64 * 65536 + id.generation as u64;
        let ghost before = self.map@;
        self.map.insert(key, on);
        proof {
            assert forall|other: ObjectId| #[trigger] self.state(other) == if other == id {
                Some(on)
            } else {
                old(self).state(other)
            } by {
                assert(key == cache_key(id));
                if cache_key(other) == cache_key(id) {
                    assert(other.number * 65536 + other.generation == id.number * 65536
                        + id.generation);
                    assert(other == id);
                }
            }
        }
    }
}

/// A group that has a state and is on.
pub open spec fn is_on(states: OcStates, id: ObjectId) -> bool {
    states.state(id) == Some(true)
}

/// An identifier occurs in a list.
pub open spec fn listed(s: Seq<ObjectId>, id: ObjectId) -> bool {
    exists|i: int| 0 <= i < s.len() && #[trigger] s[i] == id
}

/// The base state as a state; `Unchanged` counts as on.
pub open spec fn base_on(b: OcBaseState) -> bool {
    b != OcBaseState::Off
}

/// The state that a configuration gives a group: off if it is listed as off,
/// else on if it is listed as on, else the base state if it is one of the
/// document's groups, else none.
pub open spec fn configured_state(groups: Seq<GroupV>, config: ConfigV, id: ObjectId) -> Option<
    bool,
> {
    if listed(config.off, id) {
        Some(false)
    } else if listed(config.on, id) {
        Some(true)
    } else if exists|i: int| 0 <= i < groups.len() && (#[trigger] groups[i]).id == id {
        Some(base_on(config.base_state))
    } else {
        None
    }
}

/// The states are those that a configuration gives.
pub open spec fn states_of(states: OcStates, groups: Seq<GroupV>, config: ConfigV) -> bool {
    forall|id: ObjectId| #[trigger] states.state(id) == configured_state(groups, config, id)
}

/// Resolve the states that a configuration gives.
pub fn resolve_states(groups: &Vec<OptionalContentGroup>, config: &OcConfig) -> (r: OcStates)
    ensures
        states_of(r, groups_view(groups@), config@),
{
    let base: bool = match config.base_state {
        OcBaseState::Off => false,
        _ => true,
    };
    let ghost gs = groups_view(groups@);
    let mut states: OcStates = OcStates::new();
    let mut i: usize = 0;
    while i < groups.len()
        invariant
            i <= groups@.len(),
            gs == groups_view(groups@),
            forall|id: ObjectId|
                #[trigger] states.state(id) == if exists|k: int| 0 <= k < i && (#[trigger] gs[k]).id == id {
                    Some(base)
                } else {
                    None
                },
        decreases groups.len() - i,
    {
        let ghost before = states;
        states.insert(groups[i].id, base);
        proof {
            assert(gs[i as int].id == groups@[i as int].id);
            assert forall|id: ObjectId| #[trigger] states.state(id) == if exists|k: int|
                0 <= k < i + 1 && (#[trigger] gs[k]).id == id {
                Some(base)
            } else {
                None
            } by {
                assert(before.state(id) == if exists|k: int| 0 <= k < i && (#[trigger] gs[k]).id == id {
                    Some(base)
                } else {
                    None
                });
                if gs[i as int].id == id {
                } else if exists|k: int| 0 <= k < i && (#[trigger] gs[k]).id == id {
                    let k = choose|k: int| 0 <= k < i && (#[trigger] gs[k]).id == id;
                    assert(gs[k].id == id);
                }
            }
        }
        i = i + 1;
    }
    let ghost base_states = states;
    let mut i: usize = 0;
    while i < config.on.len()
        invariant
            i <= config.on@.len(),
            forall|id: ObjectId|
                #[trigger] states.state(id) == if listed(config.on@.take(i as int), id) {
                    Some(true)
                } else {
                    base_states.state(id)
                },
        decreases config.on.len() - i,
    {
        let ghost before = states;
        states.insert(config.on[i], true);
        proof {
            assert forall|id: ObjectId| #[trigger] states.state(id) == if listed(
                config.on@.take(i + 1),
                id,
            ) {
                Some(true)
            } else {
                base_states.state(id)
            } by {
                lemma_listed_next(config.on@, i as int, id);
                assert(before.state(id) == if listed(config.on@.take(i as int), id) {
                    Some(true)
                } else {
                    base_states.state(id)
                });
            }
        }
        i = i + 1;
    }
    proof {
        assert(config.on@.take(i as int) =~= config.on@);
    }
    let ghost on_states = states;
    let mut i: usize = 0;
    while i < config.off.len()
        invariant
            i <= config.off@.len(),
            forall|id: ObjectId|
                #[trigger] states.state(id) == if listed(config.off@.take(i as int), id) {
                    Some(false)
                } else {
                    on_states.state(id)
                },
        decreases config.off.len() - i,
    {
        let ghost before = states;
        states.insert(config.off[i], false);
        proof {
            assert forall|id: ObjectId| #[trigger] states.state(id) == if listed(
                config.off@.take(i + 1),
                id,
            ) {
                Some(false)
            } else {
                on_states.state(id)
            } by {
                lemma_listed_next(config.off@, i as int, id);
                assert(before.state(id) == if listed(config.off@.take(i as int), id) {
                    Some(false)
                } else {
                    on_states.state(id)
                });
            }
        }
        i = i + 1;
    }
    proof {
        assert(config.off@.take(i as int) =~= config.off@);
        assert forall|id: ObjectId| #[trigger] states.state(id) == configured_state(
            gs,
            config@,
            id,
        ) by {
            assert(on_states.state(id) == if listed(config.on@, id) {
                Some(true)
            } else {
                base_states.state(id)
            });
        }
    }
    states
}

/// A list is the one before it and one more.
proof fn lemma_listed_next(s: Seq<ObjectId>, i: int, id: ObjectId)
    requires
        0 <= i < s.len(),
    ensures
        listed(s.take(i + 1), id) == (listed(s.take(i), id) || s[i] == id),
{
    let a = s.take(i);
    let b = s.take(i + 1);
    if listed(a, id) {
        let k = choose|k: int| 0 <= k < a.len() && #[trigger] a[k] == id;
        assert(b[k] == id);
    }
    if s[i] == id {
        assert(b[i] == id);
    }
    if listed(b, id) {
        let k = choose|k: int| 0 <= k < b.len() && #[trigger] b[k] == id;
        if k < i {
            assert(a[k] == id);
        }
    }
}

// ------------------------------------------------------------- visibility

/// An expression is true.
pub open spec fn holds(e: ExprV, states: OcStates) -> bool
    decreases e,
{
    match e {
        ExprV::And(v) => forall|i: int| 0 <= i < v.len() ==> holds(#[trigger] v[i], states),
        ExprV::Or(v) => exists|i: int| 0 <= i < v.len() && holds(#[trigger] v[i], states),
        ExprV::Not(b) => !holds(*b, states),
        ExprV::Group(id) => is_on(states, id),
    }
}

/// One expression that is false makes a conjunction false.
proof fn lemma_and_false(v: Seq<ExprV>, i: int, states: OcStates)
    requires
        0 <= i < v.len(),
        !holds(v[i], states),
    ensures
        !holds(ExprV::And(v), states),
{
    let e = ExprV::And(v);
    if holds(e, states) {
        assert(e->And_0[i] == v[i]);
        assert(holds(e->And_0[i], states));
    }
}

/// One expression that is true makes a disjunction true.
proof fn lemma_or_true(v: Seq<ExprV>, i: int, states: OcStates)
    requires
        0 <= i < v.len(),
        holds(v[i], states),
    ensures
        holds(ExprV::Or(v), states),
{
    let e = ExprV::Or(v);
    if !holds(e, states) {
        assert(e->Or_0[i] == v[i]);
        assert(!holds(e->Or_0[i], states));
    }
}

/// The content of a membership is visible: by its expression, if it has one;
/// always, if it has no groups; and else by its policy.
pub open spec fn visible(m: MembershipV, states: OcStates) -> bool {
    match m.expression {
        Some(e) => holds(e, states),
        None => m.groups.len() == 0 || match m.policy {
            OcVisibilityPolicy::AllOn => forall|i: int|
                0 <= i < m.groups.len() ==> is_on(states, #[trigger] m.groups[i]),
            OcVisibilityPolicy::AnyOn => exists|i: int|
                0 <= i < m.groups.len() && is_on(states, #[trigger] m.groups[i]),
            OcVisibilityPolicy::AllOff => forall|i: int|
                0 <= i < m.groups.len() ==> !is_on(states, #[trigger] m.groups[i]),
            OcVisibilityPolicy::AnyOff => exists|i: int|
                0 <= i < m.groups.len() && !is_on(states, #[trigger] m.groups[i]),
        },
    }
}

fn group_on(states: &OcStates, id: &ObjectId) -> (r: bool)
    ensures
        r == is_on(*states, *id),
{
    match states.get(id) {
        Some(b) => b,
        None => false,
    }
}

/// Evaluate an expression.
pub fn evaluate_visibility_expression(expr: &OcVisibilityExpression, states: &OcStates) -> (r: bool)
    ensures
        r == holds(expr@, *states),
    decreases *expr,
{
    match expr {
        OcVisibilityExpression::And(v) => {
            let ghost view = expr@->And_0;
            let mut i: usize = 0;
            while i < v.len()
                invariant
                    i <= v@.len(),
                    *expr == OcVisibilityExpression::And(*v),
                    expr@ == ExprV::And(view),
                    view.len() == v@.len(),
                    forall|k: int| 0 <= k < v@.len() ==> view[k] == (#[trigger] v@[k])@,
                    forall|k: int| 0 <= k < i ==> holds(#[trigger] view[k], *states),
                decreases v.len() - i,
            {
                proof {
                    assert(expr->And_0 == *v);
                    assert(decreases_to!(*expr => *v));
                    assert(decreases_to!(*v => v[i as int]));
                    assert(view[i as int] == v@[i as int]@);
                }
                if !evaluate_visibility_expression(&v[i], states) {
                    proof {
                        lemma_and_false(view, i as int, *states);
                    }
                    return false;
                }
                i = i + 1;
            }
            true
        },
        OcVisibilityExpression::Or(v) => {
            let ghost view = expr@->Or_0;
            let mut i: usize = 0;
            while i < v.len()
                invariant
                    i <= v@.len(),
                    *expr == OcVisibilityExpression::Or(*v),
                    expr@ == ExprV::Or(view),
                    view.len() == v@.len(),
                    forall|k: int| 0 <= k < v@.len() ==> view[k] == (#[trigger] v@[k])@,
                    forall|k: int| 0 <= k < i ==> !holds(#[trigger] view[k], *states),
                decreases v.len() - i,
            {
                proof {
                    assert(expr->Or_0 == *v);
                    assert(decreases_to!(*expr => *v));
                    assert(decreases_to!(*v => v[i as int]));
                    assert(view[i as int] == v@[i as int]@);
                }
                if evaluate_visibility_expression(&v[i], states) {
                    proof {
                        lemma_or_true(view, i as int, *states);
                    }
                    return true;
                }
                i = i + 1;
            }
            false
        },
        OcVisibilityExpression::Not(b) => !evaluate_visibility_expression(b, states),
        OcVisibilityExpression::Group(id) => group_on(states, id),
    }
}

/// The content of a membership is visible under the given states.
pub fn evaluate_membership_with_states(mem: &OcMembership, states: &OcStates) -> (r: bool)
    ensures
        r == visible(mem@, *states),
{
    if let Some(e) = &mem.visibility_expression {
        return evaluate_visibility_expression(e, states);
    }
    if mem.groups.len() == 0 {
        return true;
    }
    let wanted: bool = match mem.policy {
        OcVisibilityPolicy::AllOn => true,
        OcVisibilityPolicy::AnyOn => true,
        OcVisibilityPolicy::AllOff => false,
        OcVisibilityPolicy::AnyOff => false,
    };
    let all: bool = match mem.policy {
        OcVisibilityPolicy::AllOn => true,
        OcVisibilityPolicy::AllOff => true,
        OcVisibilityPolicy::AnyOn => false,
        OcVisibilityPolicy::AnyOff => false,
    };
    let mut i: usize = 0;
    while i < mem.groups.len()
        invariant
            i <= mem.groups@.len(),
            mem.groups@.len() > 0,
            mem.visibility_expression is None,
            wanted == (mem.policy == OcVisibilityPolicy::AllOn || mem.policy
                == OcVisibilityPolicy::AnyOn),
            all == (mem.policy == OcVisibilityPolicy::AllOn || mem.policy
                == OcVisibilityPolicy::AllOff),
            all ==> forall|k: int|
                0 <= k < i ==> is_on(*states, #[trigger] mem.groups@[k]) == wanted,
            !all ==> forall|k: int|
                0 <= k < i ==> is_on(*states, #[trigger] mem.groups@[k]) != wanted,
        decreases mem.groups.len() - i,
    {
        let on: bool = group_on(states, &mem.groups[i]);
        proof {
            assert(is_on(*states, mem@.groups[i as int]) == on);
        }
        if all && on != wanted {
            return false;
        }
        if !all && on == wanted {
            return true;
        }
        i = i + 1;
    }
    all
}

// ---------------------------------------------------------------- reading

/// The entry `key` of a dictionary as text: a string, or a name.
pub open spec fn entry_text(d: DictV, key: Seq<char>) -> Option<Seq<char>> {
    match dict_get(d, key) {
        Some(ObjV::LiteralString(b)) => Some(text_of_bytes(b)),
        Some(ObjV::HexString(b)) => Some(text_of_bytes(b)),
        Some(ObjV::Name(n)) => Some(n),
        _ => None,
    }
}

fn dict_text(d: &Dict, key: &str) -> (r: Option<String>)
    ensures
        opt_text(r) == entry_text(d@, key@),
{
    match d.get(key) {
        Some(Object::LiteralString(b)) => Some(decode_text_bytes(b.as_slice())),
        Some(Object::HexString(b)) => Some(decode_text_bytes(b.as_slice())),
        Some(Object::Name(n)) => Some(n.clone()),
        _ => None,
    }
}

fn get_name(d: &Dict, key: &str) -> (r: Option<String>)
    ensures
        opt_text(r) == dict_name(d@, key@),
{
    match d.get(key) {
        Some(Object::Name(n)) => Some(n.clone()),
        _ => None,
    }
}

/// The first `n` items of an array that are names.
pub open spec fn names_among(items: Seq<ObjV>, n: int) -> Seq<Seq<char>>
    decreases n,
{
    if n <= 0 || n > items.len() {
        Seq::empty()
    } else {
        match items[n - 1] {
            ObjV::Name(t) => names_among(items, n - 1).push(t),
            _ => names_among(items, n - 1),
        }
    }
}

/// The intents of a group or configuration: a name, or the names of an array.
pub open spec fn intents_of(doc: DocV, d: DictV) -> Result<Seq<Seq<char>>, Seq<char>> {
    match dict_get(d, "Intent"@) {
        None => Ok(Seq::empty()),
        Some(o) => match doc.deref(o) {
            Err(e) => Err(e),
            Ok(ObjV::Name(n)) => Ok(seq![n]),
            Ok(ObjV::Array(items)) => Ok(names_among(items, items.len() as int)),
            Ok(_) => Ok(Seq::empty()),
        },
    }
}

fn decode_intent_array(reader: &mut DocumentReader, d: &Dict) -> (r: Result<Vec<String>, PdfError>)
    requires
        old(reader).wf(),
    ensures
        final(reader).wf(),
        final(reader).doc() == old(reader).doc(),
        match r {
            Ok(v) => intents_of(old(reader).doc(), d@) == Ok::<Seq<Seq<char>>, Seq<char>>(
                texts(v@),
            ),
            Err(e) => intents_of(old(reader).doc(), d@) == Err::<Seq<Seq<char>>, Seq<char>>(e@),
        },
{
    let mut out: Vec<String> = Vec::new();
    proof {
        assert(texts(out@) =~= Seq::empty());
    }
    let o: Object = match d.get("Intent") {
        None => {
            return Ok(out);
        },
        Some(o) => o.clone(),
    };
    match reader.deref(o) {
        Err(e) => Err(e),
        Ok(Object::Name(n)) => {
            out.push(n);
            proof {
                assert(texts(out@) =~= seq![n@]);
            }
            Ok(out)
        },
        Ok(Object::Array(items)) => {
            proof {
                lemma_array_view(items);
            }
            let ghost view = objs_view(items@);
            let mut i: usize = 0;
            while i < items.len()
                invariant
                    i <= items@.len(),
                    view == objs_view(items@),
                    texts(out@) == names_among(view, i as int),
                decreases items.len() - i,
            {
                let ghost before = texts(out@);
                proof {
                    assert(view[i as int] == items@[i as int]@);
                }
                if let Object::Name(n) = &items[i] {
                    out.push(n.clone());
                    proof {
                        assert(texts(out@) =~= before.push(n@));
                    }
                }
                i = i + 1;
            }
            Ok(out)
        },
        Ok(_) => Ok(out),
    }
}

/// The first `n` items of an array that are references.
pub open spec fn refs_among(items: Seq<ObjV>, n: int) -> Seq<ObjectId>
    decreases n,
{
    if n <= 0 || n > items.len() {
        Seq::empty()
    } else {
        match items[n - 1] {
            ObjV::Reference(id) => refs_among(items, n - 1).push(id),
            _ => refs_among(items, n - 1),
        }
    }
}

/// The references that an object is or holds.
pub open spec fn refs_in(o: ObjV) -> Seq<ObjectId> {
    match o {
        ObjV::Reference(id) => seq![id],
        ObjV::Array(items) => refs_among(items, items.len() as int),
        _ => Seq::empty(),
    }
}

fn array_refs(items: &Vec<Object>) -> (r: Vec<ObjectId>)
    ensures
        r@ == refs_among(objs_view(items@), items@.len() as int),
{
    let ghost view = objs_view(items@);
    let mut out: Vec<ObjectId> = Vec::new();
    let mut i: usize = 0;
    while i < items.len()
        invariant
            i <= items@.len(),
            view == objs_view(items@),
            out@ == refs_among(view, i as int),
        decreases items.len() - i,
    {
        proof {
            assert(view[i as int] == items@[i as int]@);
        }
        if let Object::Reference(id) = &items[i] {
            out.push(*id);
        }
        i = i + 1;
    }
    out
}

fn collect_group_refs(o: &Object) -> (r: Vec<ObjectId>)
    ensures
        r@ == refs_in(o@),
{
    match o {
        Object::Reference(id) => {
            let mut out: Vec<ObjectId> = Vec::new();
            out.push(*id);
            proof {
                assert(out@ =~= seq![*id]);
            }
            out
        },
        Object::Array(items) => {
            proof {
                lemma_array_view(*items);
            }
            array_refs(items)
        },
        _ => Vec::new(),
    }
}

/// The groups that the entry `key` of a dictionary lists: those of an array, or
/// the one group that it refers to.
pub open spec fn listed_groups(doc: DocV, d: DictV, key: Seq<char>) -> Result<
    Seq<ObjectId>,
    Seq<char>,
> {
    match dict_get(d, key) {
        None => Ok(Seq::empty()),
        Some(o) => match doc.deref(o) {
            Err(e) => Err(e),
            Ok(ObjV::Dict(_)) => Ok(refs_in(o)),
            Ok(v) => Ok(refs_in(v)),
        },
    }
}

fn read_groups(reader: &mut DocumentReader, d: &Dict, key: &str) -> (r: Result<
    Vec<ObjectId>,
    PdfError,
>)
    requires
        old(reader).wf(),
    ensures
        final(reader).wf(),
        final(reader).doc() == old(reader).doc(),
        crate::error::outcome(r) == listed_groups(old(reader).doc(), d@, key@),
{
    match d.get(key) {
        None => Ok(Vec::new()),
        Some(o) => match reader.deref(o.clone()) {
            Err(e) => Err(e),
            Ok(Object::Dict(_)) => Ok(collect_group_refs(o)),
            Ok(v) => Ok(collect_group_refs(&v)),
        },
    }
}

// ------------------------------------------------------------------- usage

/// A sub-dictionary of a usage dictionary.
pub open spec fn usage_part(doc: DocV, usage: DictV, key: Seq<char>) -> Result<
    Option<DictV>,
    Seq<char>,
> {
    match dict_get(usage, key) {
        None => Ok(None),
        Some(o) => match doc.deref(o) {
            Err(e) => Err(e),
            Ok(ObjV::Dict(d)) => Ok(Some(d)),
            Ok(_) => Ok(None),
        },
    }
}

fn read_part(reader: &mut DocumentReader, usage: &Dict, key: &str) -> (r: Result<
    Option<Dict>,
    PdfError,
>)
    requires
        old(reader).wf(),
    ensures
        final(reader).wf(),
        final(reader).doc() == old(reader).doc(),
        crate::named_dest::dict_agrees(r, usage_part(old(reader).doc(), usage@, key@)),
{
    match usage.get(key) {
        None => Ok(None),
        Some(o) => match reader.deref(o.clone()) {
            Err(e) => Err(e),
            Ok(Object::Dict(d)) => Ok(Some(d)),
            Ok(_) => Ok(None),
        },
    }
}

/// An entry of an optional dictionary that says `ON` or something else.
pub open spec fn says_on(d: Option<DictV>, key: Seq<char>) -> Option<bool> {
    match d {
        None => None,
        Some(d) => match dict_name(d, key) {
            Some(n) => Some(n == "ON"@),
            None => None,
        },
    }
}

fn read_on(d: &Option<Dict>, key: &str) -> (r: Option<bool>)
    ensures
        r == says_on(
            match *d {
                Some(v) => Some(v@),
                None => None,
            },
            key@,
        ),
{
    match d {
        None => None,
        Some(d) => match d.get(key) {
            Some(Object::Name(n)) => Some(same_text(n.as_str(), "ON")),
            _ => None,
        },
    }
}

/// A name in an optional dictionary.
pub open spec fn part_name(d: Option<DictV>, key: Seq<char>) -> Option<Seq<char>> {
    match d {
        None => None,
        Some(d) => dict_name(d, key),
    }
}

fn read_name(d: &Option<Dict>, key: &str) -> (r: Option<String>)
    ensures
        opt_text(r) == part_name(
            match *d {
                Some(v) => Some(v@),
                None => None,
            },
            key@,
        ),
{
    match d {
        None => None,
        Some(d) => get_name(d, key),
    }
}

/// A number in an optional dictionary.
pub open spec fn part_number(d: Option<DictV>, key: Seq<char>) -> Option<NumV> {
    match d {
        None => None,
        Some(d) => match dict_get(d, key) {
            Some(o) => number_of(o),
            None => None,
        },
    }
}

fn read_number(d: &Option<Dict>, key: &str) -> (r: Option<Number>)
    ensures
        opt_number(r) == part_number(
            match *d {
                Some(v) => Some(v@),
                None => None,
            },
            key@,
        ),
{
    match d {
        None => None,
        Some(d) => match d.get(key) {
            Some(o) => object_number(o),
            None => None,
        },
    }
}

/// How a group says it is meant to be used. The parts are looked at in order,
/// and the first that cannot be read is an error.
pub open spec fn usage_of(doc: DocV, group: DictV) -> Result<Option<UsageV>, Seq<char>> {
    match dict_get(group, "Usage"@) {
        None => Ok(None),
        Some(o) => match doc.deref(o) {
            Err(e) => Err(e),
            Ok(ObjV::Dict(u)) => match usage_part(doc, u, "Language"@) {
                Err(e) => Err(e),
                Ok(language) => match usage_part(doc, u, "Zoom"@) {
                    Err(e) => Err(e),
                    Ok(zoom) => match usage_part(doc, u, "Print"@) {
                        Err(e) => Err(e),
                        Ok(print) => match usage_part(doc, u, "View"@) {
                            Err(e) => Err(e),
                            Ok(view) => match usage_part(doc, u, "Export"@) {
                                Err(e) => Err(e),
                                Ok(export) => match usage_part(doc, u, "PageElement"@) {
                                    Err(e) => Err(e),
                                    Ok(element) => Ok(
                                        Some(
                                            UsageV {
                                                language: match language {
                                                    Some(d) => entry_text(d, "Lang"@),
                                                    None => None,
                                                },
                                                language_preferred: says_on(
                                                    language,
                                                    "Preferred"@,
                                                ),
                                                zoom_min: part_number(zoom, "min"@),
                                                zoom_max: part_number(zoom, "max"@),
                                                print_subtype: part_name(print, "Subtype"@),
                                                print_state: says_on(print, "PrintState"@),
                                                view_state: says_on(view, "ViewState"@),
                                                export_state: says_on(export, "ExportState"@),
                                                page_element_subtype: part_name(
                                                    element,
                                                    "Subtype"@,
                                                ),
                                            },
                                        ),
                                    ),
                                },
                            },
                        },
                    },
                },
            },
            Ok(_) => Ok(None),
        },
    }
}

fn decode_usage(reader: &mut DocumentReader, group: &Dict) -> (r: Result<
    Option<OcUsage>,
    PdfError,
>)
    requires
        old(reader).wf(),
    ensures
        final(reader).wf(),
        final(reader).doc() == old(reader).doc(),
        match r {
            Ok(Some(u)) => usage_of(old(reader).doc(), group@) == Ok::<
                Option<UsageV>,
                Seq<char>,
            >(Some(u@)),
            Ok(None) => usage_of(old(reader).doc(), group@) == Ok::<Option<UsageV>, Seq<char>>(
                None,
            ),
            Err(e) => usage_of(old(reader).doc(), group@) == Err::<Option<UsageV>, Seq<char>>(e@),
        },
{
    let o: Object = match group.get("Usage") {
        None => {
            return Ok(None);
        },
        Some(o) => o.clone(),
    };
    let u: Dict = match reader.deref(o) {
        Err(e) => {
            return Err(e);
        },
        Ok(Object::Dict(d)) => d,
        Ok(_) => {
            return Ok(None);
        },
    };
    let language: Option<Dict> = match read_part(reader, &u, "Language") {
        Ok(d) => d,
        Err(e) => {
            return Err(e);
        },
    };
    let zoom: Option<Dict> = match read_part(reader, &u, "Zoom") {
        Ok(d) => d,
        Err(e) => {
            return Err(e);
        },
    };
    let print: Option<Dict> = match read_part(reader, &u, "Print") {
        Ok(d) => d,
        Err(e) => {
            return Err(e);
        },
    };
    let view: Option<Dict> = match read_part(reader, &u, "View") {
        Ok(d) => d,
        Err(e) => {
            return Err(e);
        },
    };
    let export: Option<Dict> = match read_part(reader, &u, "Export") {
        Ok(d) => d,
        Err(e) => {
            return Err(e);
        },
    };
    let element: Option<Dict> = match read_part(reader, &u, "PageElement") {
        Ok(d) => d,
        Err(e) => {
            return Err(e);
        },
    };
    let lang: Option<String> = match &language {
        Some(d) => dict_text(d, "Lang"),
        None => None,
    };
    Ok(
        Some(
            OcUsage {
                language: lang,
                language_preferred: read_on(&language, "Preferred"),
                zoom_min: read_number(&zoom, "min"),
                zoom_max: read_number(&zoom, "max"),
                print_subtype: read_name(&print, "Subtype"),
                print_state: read_on(&print, "PrintState"),
                view_state: read_on(&view, "ViewState"),
                export_state: read_on(&export, "ExportState"),
                page_element_subtype: read_name(&element, "Subtype"),
            },
        ),
    )
}

// ---------------------------------------------------------- configurations

/// How deep lists of layers and expressions may be nested.
pub const MAX_OC_DEPTH: usize = 32;

/// The first `n` items of a list of layers: references are groups, arrays are
/// lists of their own, which may begin with a label, and anything else is
/// left out.
pub open spec fn order_items(items: Seq<ObjV>, n: int, depth: int) -> Seq<OrderV>
    decreases MAX_OC_DEPTH + 1 - depth, n,
{
    if depth > MAX_OC_DEPTH || n <= 0 || n > items.len() {
        Seq::empty()
    } else {
        let before = order_items(items, n - 1, depth);
        match items[n - 1] {
            ObjV::Reference(id) => before.push(OrderV::Group(id)),
            ObjV::Array(nested) => {
                let label = list_label(nested);
                let rest = if label is Some {
                    nested.skip(1)
                } else {
                    nested
                };
                before.push(
                    OrderV::Subtree {
                        label,
                        items: order_items(rest, rest.len() as int, depth + 1),
                    },
                )
            },
            _ => before,
        }
    }
}

/// The label that a list of layers begins with.
pub open spec fn list_label(items: Seq<ObjV>) -> Option<Seq<char>> {
    if items.len() == 0 {
        None
    } else {
        match items[0] {
            ObjV::LiteralString(b) => Some(text_of_bytes(b)),
            ObjV::HexString(b) => Some(text_of_bytes(b)),
            _ => None,
        }
    }
}

/// Read the items of a list of layers from place `from` on.
fn decode_order_items(items: &Vec<Object>, from: usize, depth: usize) -> (r: Vec<OcOrderItem>)
    requires
        from <= items@.len(),
        depth <= MAX_OC_DEPTH + 1,
    ensures
        orders_view(r@) == order_items(
            objs_view(items@).skip(from as int),
            items@.len() - from,
            depth as int,
        ),
    decreases MAX_OC_DEPTH + 1 - depth,
{
    let mut out: Vec<OcOrderItem> = Vec::new();
    proof {
        assert(orders_view(out@) =~= Seq::empty());
    }
    if depth > MAX_OC_DEPTH {
        return out;
    }
    let ghost view = objs_view(items@).skip(from as int);
    let mut i: usize = from;
    while i < items.len()
        invariant
            from <= i <= items@.len(),
            depth <= MAX_OC_DEPTH,
            view == objs_view(items@).skip(from as int),
            orders_view(out@) == order_items(view, i - from, depth as int),
        decreases items.len() - i,
    {
        let ghost before = orders_view(out@);
        proof {
            assert(view[i - from] == items@[i as int]@);
        }
        match &items[i] {
            Object::Reference(id) => {
                out.push(OcOrderItem::Group(*id));
                proof {
                    assert(orders_view(out@) =~= before.push(OrderV::Group(*id)));
                }
            },
            Object::Array(nested) => {
                proof {
                    lemma_array_view(*nested);
                    if nested@.len() > 0 {
                        assert(objs_view(nested@)[0] == nested@[0]@);
                    }
                }
                let mut label: Option<String> = None;
                if nested.len() > 0 {
                    match &nested[0] {
                        Object::LiteralString(b) => {
                            label = Some(decode_text_bytes(b.as_slice()));
                        },
                        Object::HexString(b) => {
                            label = Some(decode_text_bytes(b.as_slice()));
                        },
                        _ => {},
                    }
                }
                let skip: usize = if label.is_some() {
                    1
                } else {
                    0
                };
                let sub: Vec<OcOrderItem> = decode_order_items(nested, skip, depth + 1);
                proof {
                    assert(objs_view(nested@).skip(0) =~= objs_view(nested@));
                }
                let item: OcOrderItem = OcOrderItem::Subtree { label, items: sub };
                let ghost v = item@;
                proof {
                    assert(v->Subtree_items =~= orders_view(sub@));
                }
                out.push(item);
                proof {
                    assert(orders_view(out@) =~= before.push(v));
                }
            },
            _ => {},
        }
        i = i + 1;
    }
    out
}

/// The first `n` sets of groups of which one at most is on; an empty set is
/// left out.
pub open spec fn radio_sets(doc: DocV, items: Seq<ObjV>, n: int) -> Result<
    Seq<Seq<ObjectId>>,
    Seq<char>,
>
    decreases n,
{
    if n <= 0 || n > items.len() {
        Ok(Seq::empty())
    } else {
        match radio_sets(doc, items, n - 1) {
            Err(e) => Err(e),
            Ok(before) => match doc.deref(items[n - 1]) {
                Err(e) => Err(e),
                Ok(ObjV::Array(ids)) => {
                    let set = refs_among(ids, ids.len() as int);
                    if set.len() == 0 {
                        Ok(before)
                    } else {
                        Ok(before.push(set))
                    }
                },
                Ok(_) => Ok(before),
            },
        }
    }
}

proof fn lemma_radio_error(doc: DocV, items: Seq<ObjV>, n: int, m: int)
    requires
        0 <= n <= m <= items.len(),
        radio_sets(doc, items, n) is Err,
    ensures
        radio_sets(doc, items, m) == radio_sets(doc, items, n),
    decreases m - n,
{
    if n < m {
        lemma_radio_error(doc, items, n, m - 1);
    }
}

/// The sets of groups of which one at most is on.
pub open spec fn radio_groups(doc: DocV, d: DictV) -> Result<Seq<Seq<ObjectId>>, Seq<char>> {
    match dict_get(d, "RBGroups"@) {
        None => Ok(Seq::empty()),
        Some(o) => match doc.deref(o) {
            Err(e) => Err(e),
            Ok(ObjV::Array(items)) => radio_sets(doc, items, items.len() as int),
            Ok(_) => Ok(Seq::empty()),
        },
    }
}

fn read_radio_groups(reader: &mut DocumentReader, d: &Dict) -> (r: Result<
    Vec<Vec<ObjectId>>,
    PdfError,
>)
    requires
        old(reader).wf(),
    ensures
        final(reader).wf(),
        final(reader).doc() == old(reader).doc(),
        match r {
            Ok(v) => radio_groups(old(reader).doc(), d@) == Ok::<Seq<Seq<ObjectId>>, Seq<char>>(
                id_sets(v@),
            ),
            Err(e) => radio_groups(old(reader).doc(), d@) == Err::<
                Seq<Seq<ObjectId>>,
                Seq<char>,
            >(e@),
        },
{
    let ghost doc = reader.doc();
    let mut out: Vec<Vec<ObjectId>> = Vec::new();
    proof {
        assert(id_sets(out@) =~= Seq::empty());
    }
    let o: Object = match d.get("RBGroups") {
        None => {
            return Ok(out);
        },
        Some(o) => o.clone(),
    };
    let items: Vec<Object> = match reader.deref(o) {
        Err(e) => {
            return Err(e);
        },
        Ok(Object::Array(items)) => items,
        Ok(_) => {
            return Ok(out);
        },
    };
    proof {
        lemma_array_view(items);
    }
    let ghost view = objs_view(items@);
    let mut i: usize = 0;
    while i < items.len()
        invariant
            i <= items@.len(),
            view == objs_view(items@),
            reader.wf(),
            reader.doc() == doc,
            doc == old(reader).doc(),
            radio_groups(doc, d@) == radio_sets(doc, view, view.len() as int),
            radio_sets(doc, view, i as int) == Ok::<Seq<Seq<ObjectId>>, Seq<char>>(
                id_sets(out@),
            ),
        decreases items.len() - i,
    {
        let ghost before = id_sets(out@);
        proof {
            assert(view[i as int] == items@[i as int]@);
        }
        match reader.deref(items[i].clone()) {
            Err(e) => {
                proof {
                    lemma_radio_error(doc, view, i + 1, view.len() as int);
                }
                return Err(e);
            },
            Ok(Object::Array(ids)) => {
                proof {
                    lemma_array_view(ids);
                }
                let set: Vec<ObjectId> = array_refs(&ids);
                if set.len() > 0 {
                    let ghost v = set@;
                    out.push(set);
                    proof {
                        assert(id_sets(out@) =~= before.push(v));
                    }
                }
            },
            Ok(_) => {},
        }
        i = i + 1;
    }
    Ok(out)
}

/// The list of layers that a configuration gives.
pub open spec fn order_of(doc: DocV, d: DictV) -> Result<Seq<OrderV>, Seq<char>> {
    match dict_get(d, "Order"@) {
        None => Ok(Seq::empty()),
        Some(o) => match doc.deref(o) {
            Err(e) => Err(e),
            Ok(ObjV::Array(items)) => Ok(order_items(items, items.len() as int, 0)),
            Ok(_) => Ok(Seq::empty()),
        },
    }
}

fn read_order(reader: &mut DocumentReader, d: &Dict) -> (r: Result<Vec<OcOrderItem>, PdfError>)
    requires
        old(reader).wf(),
    ensures
        final(reader).wf(),
        final(reader).doc() == old(reader).doc(),
        match r {
            Ok(v) => order_of(old(reader).doc(), d@) == Ok::<Seq<OrderV>, Seq<char>>(
                orders_view(v@),
            ),
            Err(e) => order_of(old(reader).doc(), d@) == Err::<Seq<OrderV>, Seq<char>>(e@),
        },
{
    let none: Vec<OcOrderItem> = Vec::new();
    proof {
        assert(orders_view(none@) =~= Seq::empty());
    }
    match d.get("Order") {
        None => Ok(none),
        Some(o) => match reader.deref(o.clone()) {
            Err(e) => Err(e),
            Ok(Object::Array(items)) => {
                proof {
                    lemma_array_view(items);
                    assert(objs_view(items@).skip(0) =~= objs_view(items@));
                }
                Ok(decode_order_items(&items, 0, 0))
            },
            Ok(_) => Ok(none),
        },
    }
}

/// The intents of a configuration: `View` where it names none.
pub open spec fn config_intents(s: Seq<Seq<char>>) -> Seq<Seq<char>> {
    if s.len() == 0 {
        seq!["View"@]
    } else {
        s
    }
}

/// The configuration that a dictionary describes.
pub open spec fn config_of(doc: DocV, d: DictV) -> Result<ConfigV, Seq<char>> {
    match listed_groups(doc, d, "ON"@) {
        Err(e) => Err(e),
        Ok(on) => match listed_groups(doc, d, "OFF"@) {
            Err(e) => Err(e),
            Ok(off) => match intents_of(doc, d) {
                Err(e) => Err(e),
                Ok(intents) => match order_of(doc, d) {
                    Err(e) => Err(e),
                    Ok(order) => match radio_groups(doc, d) {
                        Err(e) => Err(e),
                        Ok(rb_groups) => match listed_groups(doc, d, "Locked"@) {
                            Err(e) => Err(e),
                            Ok(locked) => Ok(
                                ConfigV {
                                    name: entry_text(d, "Name"@),
                                    creator: entry_text(d, "Creator"@),
                                    base_state: match dict_name(d, "BaseState"@) {
                                        Some(n) => base_state_named(n),
                                        None => OcBaseState::On,
                                    },
                                    on,
                                    off,
                                    intents: config_intents(intents),
                                    order,
                                    list_mode: if dict_name(d, "ListMode"@) == Some(
                                        "VisiblePages"@,
                                    ) {
                                        OcListMode::VisiblePages
                                    } else {
                                        OcListMode::AllPages
                                    },
                                    rb_groups,
                                    locked,
                                },
                            ),
                        },
                    },
                },
            },
        },
    }
}

/// The configuration that an object stands for, if it is a dictionary.
pub open spec fn config_value(doc: DocV, o: ObjV) -> Result<Option<ConfigV>, Seq<char>> {
    match doc.deref(o) {
        Err(e) => Err(e),
        Ok(ObjV::Dict(d)) => match config_of(doc, d) {
            Err(e) => Err(e),
            Ok(c) => Ok(Some(c)),
        },
        Ok(_) => Ok(None),
    }
}

/// `r` is the optional configuration that `w` says.
pub open spec fn config_agrees(
    r: Result<Option<OcConfig>, PdfError>,
    w: Result<Option<ConfigV>, Seq<char>>,
) -> bool {
    match r {
        Ok(Some(c)) => w == Ok::<Option<ConfigV>, Seq<char>>(Some(c@)),
        Ok(None) => w == Ok::<Option<ConfigV>, Seq<char>>(None),
        Err(e) => w == Err::<Option<ConfigV>, Seq<char>>(e@),
    }
}

fn decode_config(reader: &mut DocumentReader, o: Object) -> (r: Result<Option<OcConfig>, PdfError>)
    requires
        old(reader).wf(),
    ensures
        final(reader).wf(),
        final(reader).doc() == old(reader).doc(),
        config_agrees(r, config_value(old(reader).doc(), o@)),
{
    let d: Dict = match reader.deref(o) {
        Err(e) => {
            return Err(e);
        },
        Ok(Object::Dict(d)) => d,
        Ok(_) => {
            return Ok(None);
        },
    };
    let on: Vec<ObjectId> = match read_groups(reader, &d, "ON") {
        Ok(v) => v,
        Err(e) => {
            return Err(e);
        },
    };
    let off: Vec<ObjectId> = match read_groups(reader, &d, "OFF") {
        Ok(v) => v,
        Err(e) => {
            return Err(e);
        },
    };
    let mut intents: Vec<String> = match decode_intent_array(reader, &d) {
        Ok(v) => v,
        Err(e) => {
            return Err(e);
        },
    };
    if intents.len() == 0 {
        intents.push("View".to_owned());
        proof {
            assert(texts(intents@) =~= seq!["View"@]);
        }
    }
    let order: Vec<OcOrderItem> = match read_order(reader, &d) {
        Ok(v) => v,
        Err(e) => {
            return Err(e);
        },
    };
    let rb_groups: Vec<Vec<ObjectId>> = match read_radio_groups(reader, &d) {
        Ok(v) => v,
        Err(e) => {
            return Err(e);
        },
    };
    let locked: Vec<ObjectId> = match read_groups(reader, &d, "Locked") {
        Ok(v) => v,
        Err(e) => {
            return Err(e);
        },
    };
    let base_state: OcBaseState = match d.get("BaseState") {
        Some(Object::Name(n)) => OcBaseState::from_name(n.as_str()),
        _ => OcBaseState::On,
    };
    let list_mode: OcListMode = if is_named(&d, "ListMode", "VisiblePages") {
        OcListMode::VisiblePages
    } else {
        OcListMode::AllPages
    };
    Ok(
        Some(
            OcConfig {
                name: dict_text(&d, "Name"),
                creator: dict_text(&d, "Creator"),
                base_state,
                on,
                off,
                intents,
                order,
                list_mode,
                rb_groups,
                locked,
            },
        ),
    )
}

// ------------------------------------------------------------ memberships

/// The visibility expression that an array describes, if it describes one.
pub open spec fn expression_of(doc: DocV, items: Seq<ObjV>, depth: int) -> Result<
    Option<ExprV>,
    Seq<char>,
>
    decreases MAX_OC_DEPTH + 1 - depth, items.len() + 1,
{
    if depth > MAX_OC_DEPTH || items.len() == 0 {
        Ok(None)
    } else {
        match items[0] {
            ObjV::Name(op) => match operands(doc, items, items.len() as int, depth) {
                Err(e) => Err(e),
                Ok(subs) => Ok(applied(op, subs)),
            },
            _ => Ok(None),
        }
    }
}

/// An operator with its operands; `Not` takes the first.
pub open spec fn applied(op: Seq<char>, subs: Seq<ExprV>) -> Option<ExprV> {
    if op == "And"@ {
        Some(ExprV::And(subs))
    } else if op == "Or"@ {
        Some(ExprV::Or(subs))
    } else if op == "Not"@ && subs.len() > 0 {
        Some(ExprV::Not(Box::new(subs[0])))
    } else {
        None
    }
}

/// The operands among the first `n` items behind an operator. An array, or a
/// reference to one, is an expression of its own; a reference to a dictionary is
/// a group; anything else is left out.
pub open spec fn operands(doc: DocV, items: Seq<ObjV>, n: int, depth: int) -> Result<
    Seq<ExprV>,
    Seq<char>,
>
    decreases MAX_OC_DEPTH + 1 - depth, n,
{
    if depth > MAX_OC_DEPTH || n <= 1 || n > items.len() {
        Ok(Seq::empty())
    } else {
        match operands(doc, items, n - 1, depth) {
            Err(e) => Err(e),
            Ok(before) => match doc.deref(items[n - 1]) {
                Err(e) => Err(e),
                Ok(ObjV::Array(inner)) => match expression_of(doc, inner, depth + 1) {
                    Err(e) => Err(e),
                    Ok(Some(e)) => Ok(before.push(e)),
                    Ok(None) => Ok(before),
                },
                Ok(ObjV::Dict(_)) => match items[n - 1] {
                    ObjV::Reference(id) => Ok(before.push(ExprV::Group(id))),
                    _ => Ok(before),
                },
                Ok(_) => Ok(before),
            },
        }
    }
}

proof fn lemma_operands_error(doc: DocV, items: Seq<ObjV>, n: int, m: int, depth: int)
    requires
        0 <= n <= m <= items.len(),
        operands(doc, items, n, depth) is Err,
    ensures
        operands(doc, items, m, depth) == operands(doc, items, n, depth),
    decreases m - n,
{
    if n < m {
        lemma_operands_error(doc, items, n, m - 1, depth);
    }
}

/// `r` is the optional expression that `w` says.
pub open spec fn expr_agrees(
    r: Result<Option<OcVisibilityExpression>, PdfError>,
    w: Result<Option<ExprV>, Seq<char>>,
) -> bool {
    match r {
        Ok(e) => w == Ok::<Option<ExprV>, Seq<char>>(opt_expr(e)),
        Err(e) => w == Err::<Option<ExprV>, Seq<char>>(e@),
    }
}

/// Read a visibility expression: an operator and its operands.
fn parse_visibility_expression(
    reader: &mut DocumentReader,
    items: &Vec<Object>,
    depth: usize,
) -> (r: Result<Option<OcVisibilityExpression>, PdfError>)
    requires
        old(reader).wf(),
        depth <= MAX_OC_DEPTH + 1,
    ensures
        final(reader).wf(),
        final(reader).doc() == old(reader).doc(),
        expr_agrees(r, expression_of(old(reader).doc(), objs_view(items@), depth as int)),
    decreases MAX_OC_DEPTH + 1 - depth,
{
    if depth > MAX_OC_DEPTH || items.len() == 0 {
        return Ok(None);
    }
    let ghost doc = reader.doc();
    let ghost view = objs_view(items@);
    proof {
        assert(view[0] == items@[0]@);
    }
    let op: String = match &items[0] {
        Object::Name(n) => n.clone(),
        _ => {
            return Ok(None);
        },
    };
    let mut subs: Vec<OcVisibilityExpression> = Vec::new();
    proof {
        assert(exprs_view(subs@) =~= Seq::empty());
    }
    let mut i: usize = 1;
    while i < items.len()
        invariant
            1 <= i <= items@.len(),
            depth <= MAX_OC_DEPTH,
            view == objs_view(items@),
            reader.wf(),
            reader.doc() == doc,
            doc == old(reader).doc(),
            view[0] == ObjV::Name(op@),
            operands(doc, view, i as int, depth as int) == Ok::<Seq<ExprV>, Seq<char>>(
                exprs_view(subs@),
            ),
        decreases items.len() - i,
    {
        let ghost before = exprs_view(subs@);
        proof {
            assert(view[i as int] == items@[i as int]@);
        }
        let ghost after = operands(doc, view, i + 1, depth as int);
        match reader.deref(items[i].clone()) {
            Err(e) => {
                proof {
                    lemma_operands_error(doc, view, i + 1, view.len() as int, depth as int);
                }
                return Err(e);
            },
            Ok(Object::Array(inner)) => {
                proof {
                    lemma_array_view(inner);
                }
                match parse_visibility_expression(reader, &inner, depth + 1) {
                    Err(e) => {
                        proof {
                            lemma_operands_error(doc, view, i + 1, view.len() as int, depth as int);
                        }
                        return Err(e);
                    },
                    Ok(Some(sub)) => {
                        let ghost v = sub@;
                        subs.push(sub);
                        proof {
                            assert(exprs_view(subs@) =~= before.push(v));
                        }
                    },
                    Ok(None) => {},
                }
            },
            Ok(Object::Dict(_)) => {
                if let Object::Reference(id) = &items[i] {
                    subs.push(OcVisibilityExpression::Group(*id));
                    proof {
                        assert(exprs_view(subs@) =~= before.push(ExprV::Group(*id)));
                    }
                }
            },
            Ok(_) => {},
        }
        i = i + 1;
    }
    if same_text(op.as_str(), "And") {
        let e: OcVisibilityExpression = OcVisibilityExpression::And(subs);
        proof {
            assert(e@->And_0 =~= exprs_view(subs@));
        }
        Ok(Some(e))
    } else if same_text(op.as_str(), "Or") {
        let e: OcVisibilityExpression = OcVisibilityExpression::Or(subs);
        proof {
            assert(e@->Or_0 =~= exprs_view(subs@));
        }
        Ok(Some(e))
    } else if same_text(op.as_str(), "Not") && subs.len() > 0 {
        let first: OcVisibilityExpression = subs.swap_remove(0);
        let e: OcVisibilityExpression = OcVisibilityExpression::Not(Box::new(first));
        Ok(Some(e))
    } else {
        Ok(None)
    }
}

/// The expression in the entry `VE` of a membership.
pub open spec fn entry_expression(doc: DocV, d: DictV) -> Result<Option<ExprV>, Seq<char>> {
    match dict_get(d, "VE"@) {
        None => Ok(None),
        Some(o) => match doc.deref(o) {
            Err(e) => Err(e),
            Ok(ObjV::Array(items)) => expression_of(doc, items, 0),
            Ok(_) => Ok(None),
        },
    }
}

/// The membership that a dictionary describes. One of another type, or with
/// neither groups nor an expression, describes none.
pub open spec fn membership_of(doc: DocV, d: DictV) -> Result<Option<MembershipV>, Seq<char>> {
    let of_other_type = match dict_name(d, "Type"@) {
        Some(t) => t != "OCMD"@,
        None => false,
    };
    if of_other_type || (dict_get(d, "OCGs"@) is None && dict_get(d, "VE"@) is None) {
        Ok(None)
    } else {
        match listed_groups(doc, d, "OCGs"@) {
            Err(e) => Err(e),
            Ok(groups) => match entry_expression(doc, d) {
                Err(e) => Err(e),
                Ok(expression) => Ok(
                    Some(
                        MembershipV {
                            groups,
                            policy: match dict_name(d, "P"@) {
                                Some(n) => policy_named(n),
                                None => OcVisibilityPolicy::AnyOn,
                            },
                            expression,
                        },
                    ),
                ),
            },
        }
    }
}

/// Read a membership dictionary.
pub fn parse_membership(reader: &mut DocumentReader, dict: &Dict) -> (r: Result<
    Option<OcMembership>,
    PdfError,
>)
    requires
        old(reader).wf(),
    ensures
        final(reader).wf(),
        final(reader).doc() == old(reader).doc(),
        match r {
            Ok(Some(m)) => membership_of(old(reader).doc(), dict@) == Ok::<
                Option<MembershipV>,
                Seq<char>,
            >(Some(m@)),
            Ok(None) => membership_of(old(reader).doc(), dict@) == Ok::<
                Option<MembershipV>,
                Seq<char>,
            >(None),
            Err(e) => membership_of(old(reader).doc(), dict@) == Err::<
                Option<MembershipV>,
                Seq<char>,
            >(e@),
        },
{
    if let Some(Object::Name(t)) = dict.get("Type") {
        if !same_text(t.as_str(), "OCMD") {
            return Ok(None);
        }
    }
    if dict.get("OCGs").is_none() && dict.get("VE").is_none() {
        return Ok(None);
    }
    let groups: Vec<ObjectId> = match read_groups(reader, dict, "OCGs") {
        Ok(v) => v,
        Err(e) => {
            return Err(e);
        },
    };
    let policy: OcVisibilityPolicy = match dict.get("P") {
        Some(Object::Name(n)) => OcVisibilityPolicy::from_name(n.as_str()),
        _ => OcVisibilityPolicy::AnyOn,
    };
    let visibility_expression: Option<OcVisibilityExpression> = match dict.get("VE") {
        None => None,
        Some(o) => match reader.deref(o.clone()) {
            Err(e) => {
                return Err(e);
            },
            Ok(Object::Array(items)) => {
                proof {
                    lemma_array_view(items);
                }
                match parse_visibility_expression(reader, &items, 0) {
                    Err(e) => {
                        return Err(e);
                    },
                    Ok(e) => e,
                }
            },
            Ok(_) => None,
        },
    };
    Ok(Some(OcMembership { groups, policy, visibility_expression }))
}

// ----------------------------------------------------------- the document

/// All that a document says of its optional content.
pub struct OptionalContent {
    /// The groups, in the order in which the document lists them.
    pub groups: Vec<OptionalContentGroup>,
    /// `/D`.
    pub default_config: OcConfig,
    /// `/Configs`.
    pub alternate_configs: Vec<OcConfig>,
    /// The states of the groups in the default configuration.
    pub states: OcStates,
}

/// Optional content as a mathematical value; the states follow from the rest.
pub struct ContentV {
    pub groups: Seq<GroupV>,
    pub default_config: ConfigV,
    pub alternate_configs: Seq<ConfigV>,
}

/// Configurations as mathematical values.
pub open spec fn configs_view(s: Seq<OcConfig>) -> Seq<ConfigV> {
    s.map_values(|c: OcConfig| c@)
}

impl View for OptionalContent {
    type V = ContentV;

    open spec fn view(&self) -> ContentV {
        ContentV {
            groups: groups_view(self.groups@),
            default_config: self.default_config@,
            alternate_configs: configs_view(self.alternate_configs@),
        }
    }
}

impl OptionalContent {
    /// The states are those of the default configuration.
    pub open spec fn wf(&self) -> bool {
        states_of(self.states, self@.groups, self@.default_config)
    }

    /// Whether a group is on. A group that is not known is hidden.
    pub fn is_visible(&self, group: ObjectId) -> (r: bool)
        ensures
            r == is_on(self.states, group),
            self.wf() ==> r == (configured_state(self@.groups, self@.default_config, group)
                == Some(true)),
    {
        match self.states.get(&group) {
            Some(on) => on,
            None => false,
        }
    }

    /// The states of the groups in another configuration.
    pub fn states_for_config(&self, config: &OcConfig) -> (r: OcStates)
        ensures
            states_of(r, self@.groups, config@),
    {
        resolve_states(&self.groups, config)
    }

    /// Whether content with this membership is visible in the default
    /// configuration.
    pub fn evaluate_membership(&self, mem: &OcMembership) -> (r: bool)
        ensures
            r == visible(mem@, self.states),
    {
        evaluate_membership_with_states(mem, &self.states)
    }
}

/// The group with a number that a dictionary describes. A dictionary of
/// another type describes none.
pub open spec fn group_of(doc: DocV, id: ObjectId, d: DictV) -> Result<Option<GroupV>, Seq<char>> {
    let of_other_type = match dict_name(d, "Type"@) {
        Some(t) => t != "OCG"@,
        None => false,
    };
    if of_other_type {
        Ok(None)
    } else {
        match intents_of(doc, d) {
            Err(e) => Err(e),
            Ok(intents) => match usage_of(doc, d) {
                Err(e) => Err(e),
                Ok(usage) => Ok(
                    Some(
                        GroupV {
                            id,
                            name: match entry_text(d, "Name"@) {
                                Some(t) => t,
                                None => Seq::empty(),
                            },
                            intents,
                            usage,
                        },
                    ),
                ),
            },
        }
    }
}

/// The group that an item of a list of groups stands for. What is no reference
/// to a dictionary stands for none.
pub open spec fn listed_group(doc: DocV, item: ObjV) -> Result<Option<GroupV>, Seq<char>> {
    match item {
        ObjV::Reference(id) => match doc.resolve(id) {
            Ok(ObjV::Dict(d)) => group_of(doc, id, d),
            _ => Ok(None),
        },
        _ => Ok(None),
    }
}

/// `r` is the optional group that `w` says.
pub open spec fn group_agrees(
    r: Result<Option<OptionalContentGroup>, PdfError>,
    w: Result<Option<GroupV>, Seq<char>>,
) -> bool {
    match r {
        Ok(Some(g)) => w == Ok::<Option<GroupV>, Seq<char>>(Some(g@)),
        Ok(None) => w == Ok::<Option<GroupV>, Seq<char>>(None),
        Err(e) => w == Err::<Option<GroupV>, Seq<char>>(e@),
    }
}

fn decode_group(reader: &mut DocumentReader, item: &Object) -> (r: Result<
    Option<OptionalContentGroup>,
    PdfError,
>)
    requires
        old(reader).wf(),
    ensures
        final(reader).wf(),
        final(reader).doc() == old(reader).doc(),
        group_agrees(r, listed_group(old(reader).doc(), item@)),
{
    let id: ObjectId = match item {
        Object::Reference(id) => *id,
        _ => {
            return Ok(None);
        },
    };
    let d: Dict = match reader.resolve(id) {
        Ok(Object::Dict(d)) => d,
        _ => {
            return Ok(None);
        },
    };
    if let Some(Object::Name(t)) = d.get("Type") {
        if !same_text(t.as_str(), "OCG") {
            return Ok(None);
        }
    }
    let intents: Vec<String> = match decode_intent_array(reader, &d) {
        Ok(v) => v,
        Err(e) => {
            return Err(e);
        },
    };
    let usage: Option<OcUsage> = match decode_usage(reader, &d) {
        Ok(u) => u,
        Err(e) => {
            return Err(e);
        },
    };
    let name: String = match dict_text(&d, "Name") {
        Some(t) => t,
        None => String::new(),
    };
    Ok(Some(OptionalContentGroup { id, name, intents, usage }))
}

/// The groups that the first `n` items of a list stand for.
pub open spec fn groups_among(doc: DocV, items: Seq<ObjV>, n: int) -> Result<
    Seq<GroupV>,
    Seq<char>,
>
    decreases n,
{
    if n <= 0 || n > items.len() {
        Ok(Seq::empty())
    } else {
        match groups_among(doc, items, n - 1) {
            Err(e) => Err(e),
            Ok(before) => match listed_group(doc, items[n - 1]) {
                Err(e) => Err(e),
                Ok(Some(g)) => Ok(before.push(g)),
                Ok(None) => Ok(before),
            },
        }
    }
}

proof fn lemma_groups_error(doc: DocV, items: Seq<ObjV>, n: int, m: int)
    requires
        0 <= n <= m <= items.len(),
        groups_among(doc, items, n) is Err,
    ensures
        groups_among(doc, items, m) == groups_among(doc, items, n),
    decreases m - n,
{
    if n < m {
        lemma_groups_error(doc, items, n, m - 1);
    }
}

fn read_all_groups(reader: &mut DocumentReader, items: &Vec<Object>) -> (r: Result<
    Vec<OptionalContentGroup>,
    PdfError,
>)
    requires
        old(reader).wf(),
    ensures
        final(reader).wf(),
        final(reader).doc() == old(reader).doc(),
        match r {
            Ok(v) => groups_among(old(reader).doc(), objs_view(items@), items@.len() as int) == Ok::<
                Seq<GroupV>,
                Seq<char>,
            >(groups_view(v@)),
            Err(e) => groups_among(old(reader).doc(), objs_view(items@), items@.len() as int)
                == Err::<Seq<GroupV>, Seq<char>>(e@),
        },
{
    let ghost doc = reader.doc();
    let ghost view = objs_view(items@);
    let mut out: Vec<OptionalContentGroup> = Vec::new();
    proof {
        assert(groups_view(out@) =~= Seq::empty());
    }
    let mut i: usize = 0;
    while i < items.len()
        invariant
            i <= items@.len(),
            view == objs_view(items@),
            reader.wf(),
            reader.doc() == doc,
            doc == old(reader).doc(),
            groups_among(doc, view, i as int) == Ok::<Seq<GroupV>, Seq<char>>(groups_view(out@)),
        decreases items.len() - i,
    {
        let ghost before = groups_view(out@);
        proof {
            assert(view[i as int] == items@[i as int]@);
        }
        match decode_group(reader, &items[i]) {
            Err(e) => {
                proof {
                    lemma_groups_error(doc, view, i + 1, view.len() as int);
                }
                return Err(e);
            },
            Ok(Some(g)) => {
                let ghost v = g@;
                out.push(g);
                proof {
                    assert(groups_view(out@) =~= before.push(v));
                }
            },
            Ok(None) => {},
        }
        i = i + 1;
    }
    Ok(out)
}

/// The configurations that the first `n` items of a list stand for.
pub open spec fn configs_among(doc: DocV, items: Seq<ObjV>, n: int) -> Result<
    Seq<ConfigV>,
    Seq<char>,
>
    decreases n,
{
    if n <= 0 || n > items.len() {
        Ok(Seq::empty())
    } else {
        match configs_among(doc, items, n - 1) {
            Err(e) => Err(e),
            Ok(before) => match config_value(doc, items[n - 1]) {
                Err(e) => Err(e),
                Ok(Some(c)) => Ok(before.push(c)),
                Ok(None) => Ok(before),
            },
        }
    }
}

proof fn lemma_configs_error(doc: DocV, items: Seq<ObjV>, n: int, m: int)
    requires
        0 <= n <= m <= items.len(),
        configs_among(doc, items, n) is Err,
    ensures
        configs_among(doc, items, m) == configs_among(doc, items, n),
    decreases m - n,
{
    if n < m {
        lemma_configs_error(doc, items, n, m - 1);
    }
}

/// The alternate configurations of a document.
pub open spec fn alternates_of(doc: DocV, ocp: DictV) -> Result<Seq<ConfigV>, Seq<char>> {
    match dict_get(ocp, "Configs"@) {
        None => Ok(Seq::empty()),
        Some(o) => match doc.deref(o) {
            Err(e) => Err(e),
            Ok(ObjV::Array(items)) => configs_among(doc, items, items.len() as int),
            Ok(_) => Ok(Seq::empty()),
        },
    }
}

fn read_alternates(reader: &mut DocumentReader, ocp: &Dict) -> (r: Result<Vec<OcConfig>, PdfError>)
    requires
        old(reader).wf(),
    ensures
        final(reader).wf(),
        final(reader).doc() == old(reader).doc(),
        match r {
            Ok(v) => alternates_of(old(reader).doc(), ocp@) == Ok::<Seq<ConfigV>, Seq<char>>(
                configs_view(v@),
            ),
            Err(e) => alternates_of(old(reader).doc(), ocp@) == Err::<Seq<ConfigV>, Seq<char>>(e@),
        },
{
    let ghost doc = reader.doc();
    let mut out: Vec<OcConfig> = Vec::new();
    proof {
        assert(configs_view(out@) =~= Seq::empty());
    }
    let o: Object = match ocp.get("Configs") {
        None => {
            return Ok(out);
        },
        Some(o) => o.clone(),
    };
    let items: Vec<Object> = match reader.deref(o) {
        Err(e) => {
            return Err(e);
        },
        Ok(Object::Array(items)) => items,
        Ok(_) => {
            return Ok(out);
        },
    };
    proof {
        lemma_array_view(items);
    }
    let ghost view = objs_view(items@);
    let mut i: usize = 0;
    while i < items.len()
        invariant
            i <= items@.len(),
            view == objs_view(items@),
            reader.wf(),
            reader.doc() == doc,
            doc == old(reader).doc(),
            alternates_of(doc, ocp@) == configs_among(doc, view, view.len() as int),
            configs_among(doc, view, i as int) == Ok::<Seq<ConfigV>, Seq<char>>(
                configs_view(out@),
            ),
        decreases items.len() - i,
    {
        let ghost before = configs_view(out@);
        proof {
            assert(view[i as int] == items@[i as int]@);
        }
        match decode_config(reader, items[i].clone()) {
            Err(e) => {
                proof {
                    lemma_configs_error(doc, view, i + 1, view.len() as int);
                }
                return Err(e);
            },
            Ok(Some(c)) => {
                let ghost v = c@;
                out.push(c);
                proof {
                    assert(configs_view(out@) =~= before.push(v));
                }
            },
            Ok(None) => {},
        }
        i = i + 1;
    }
    Ok(out)
}

/// The default configuration of a document.
pub open spec fn default_of(doc: DocV, ocp: DictV) -> Result<ConfigV, Seq<char>> {
    match dict_get(ocp, "D"@) {
        None => Ok(empty_config()),
        Some(o) => match config_value(doc, o) {
            Err(e) => Err(e),
            Ok(Some(c)) => Ok(c),
            Ok(None) => Ok(empty_config()),
        },
    }
}

/// What a dictionary `/OCProperties` says, if it lists groups.
pub open spec fn content_of(doc: DocV, ocp: DictV) -> Result<Option<ContentV>, Seq<char>> {
    match dict_get(ocp, "OCGs"@) {
        None => Ok(None),
        Some(o) => match doc.deref(o) {
            Err(e) => Err(e),
            Ok(ObjV::Array(items)) => match groups_among(doc, items, items.len() as int) {
                Err(e) => Err(e),
                Ok(groups) => match default_of(doc, ocp) {
                    Err(e) => Err(e),
                    Ok(default_config) => match alternates_of(doc, ocp) {
                        Err(e) => Err(e),
                        Ok(alternate_configs) => Ok(
                            Some(ContentV { groups, default_config, alternate_configs }),
                        ),
                    },
                },
            },
            Ok(_) => Ok(None),
        },
    }
}

/// The optional content of a document; none where its `/OCProperties` cannot be
/// read.
pub open spec fn document_content(doc: DocV) -> Result<Option<ContentV>, Seq<char>> {
    match doc.catalog() {
        Err(e) => Err(e),
        Ok(ObjV::Dict(catalog)) => match dict_get(catalog, "OCProperties"@) {
            None => Ok(None),
            Some(o) => match doc.deref(o) {
                Ok(ObjV::Dict(ocp)) => content_of(doc, ocp),
                _ => Ok(None),
            },
        },
        Ok(o) => Err("PDF OCG reader: /Root must be a dict"@ + got(o)),
    }
}

/// `r` is the optional content that `w` says, with the states that follow.
pub open spec fn content_agrees(
    r: Result<Option<OptionalContent>, PdfError>,
    w: Result<Option<ContentV>, Seq<char>>,
) -> bool {
    match r {
        Ok(Some(c)) => w == Ok::<Option<ContentV>, Seq<char>>(Some(c@)) && c.wf(),
        Ok(None) => w == Ok::<Option<ContentV>, Seq<char>>(None),
        Err(e) => w == Err::<Option<ContentV>, Seq<char>>(e@),
    }
}

fn decode_content(reader: &mut DocumentReader, ocp: &Dict) -> (r: Result<
    Option<OptionalContent>,
    PdfError,
>)
    requires
        old(reader).wf(),
    ensures
        final(reader).wf(),
        final(reader).doc() == old(reader).doc(),
        content_agrees(r, content_of(old(reader).doc(), ocp@)),
{
    let o: Object = match ocp.get("OCGs") {
        None => {
            return Ok(None);
        },
        Some(o) => o.clone(),
    };
    let items: Vec<Object> = match reader.deref(o) {
        Err(e) => {
            return Err(e);
        },
        Ok(Object::Array(items)) => items,
        Ok(_) => {
            return Ok(None);
        },
    };
    proof {
        lemma_array_view(items);
    }
    let groups: Vec<OptionalContentGroup> = match read_all_groups(reader, &items) {
        Ok(v) => v,
        Err(e) => {
            return Err(e);
        },
    };
    let default_config: OcConfig = match ocp.get("D") {
        None => OcConfig::default(),
        Some(o) => match decode_config(reader, o.clone()) {
            Err(e) => {
                return Err(e);
            },
            Ok(Some(c)) => c,
            Ok(None) => OcConfig::default(),
        },
    };
    let alternate_configs: Vec<OcConfig> = match read_alternates(reader, ocp) {
        Ok(v) => v,
        Err(e) => {
            return Err(e);
        },
    };
    let states: OcStates = resolve_states(&groups, &default_config);
    Ok(Some(OptionalContent { groups, default_config, alternate_configs, states }))
}

/// Read the optional content of a document; none where the document has none.
pub fn optional_content(reader: &mut DocumentReader) -> (r: Result<
    Option<OptionalContent>,
    PdfError,
>)
    requires
        old(reader).wf(),
    ensures
        final(reader).wf(),
        final(reader).doc() == old(reader).doc(),
        content_agrees(r, document_content(old(reader).doc())),
{
    let catalog: Dict = match reader.catalog() {
        Err(e) => {
            return Err(e);
        },
        Ok(Object::Dict(d)) => d,
        Ok(o) => {
            return Err(unexpected("PDF OCG reader: /Root must be a dict", &o));
        },
    };
    let o: Object = match catalog.get("OCProperties") {
        None => {
            return Ok(None);
        },
        Some(o) => o.clone(),
    };
    match reader.deref(o) {
        Ok(Object::Dict(ocp)) => decode_content(reader, &ocp),
        _ => Ok(None),
    }
}

impl<'a> DocumentReader<'a> {
    /// The optional content of the document.
    pub fn optional_content(&mut self) -> (r: Result<Option<OptionalContent>, PdfError>)
        requires
            old(self).wf(),
        ensures
            final(self).wf(),
            final(self).doc() == old(self).doc(),
            content_agrees(r, document_content(old(self).doc())),
    {
        optional_content(self)
    }
}

/// Whether the entry `/OC` of an annotation lets it be seen. It is a group, or
/// a membership; what is neither hides nothing.
pub open spec fn oc_visible(doc: DocV, annot: DictV, states: Option<OcStates>) -> bool {
    match (dict_get(annot, "OC"@), states) {
        (Some(entry), Some(states)) => match entry {
            ObjV::Reference(id) => match doc.resolve(id) {
                Ok(ObjV::Dict(d)) => if is_membership(d) {
                    membership_visible(doc, d, states)
                } else {
                    is_on(states, id)
                },
                _ => true,
            },
            ObjV::Dict(d) => is_membership(d) ==> membership_visible(doc, d, states),
            _ => true,
        },
        _ => true,
    }
}

/// A dictionary of the type of memberships, or of no type and with an entry
/// that only a membership has.
pub open spec fn is_membership(d: DictV) -> bool {
    match dict_name(d, "Type"@) {
        Some(t) => t == "OCMD"@,
        None => dict_get(d, "OCGs"@) is Some || dict_get(d, "VE"@) is Some,
    }
}

/// Whether a membership dictionary lets its content be seen; one that cannot
/// be read does.
pub open spec fn membership_visible(doc: DocV, d: DictV, states: OcStates) -> bool {
    match membership_of(doc, d) {
        Ok(Some(m)) => visible(m, states),
        _ => true,
    }
}

fn dict_is_membership(d: &Dict) -> (r: bool)
    ensures
        r == is_membership(d@),
{
    match d.get("Type") {
        Some(Object::Name(t)) => same_text(t.as_str(), "OCMD"),
        _ => d.get("OCGs").is_some() || d.get("VE").is_some(),
    }
}

/// Whether the entry `/OC` of an annotation lets it be seen.
pub fn annotation_oc_visible(
    reader: &mut DocumentReader,
    annot: &Dict,
    optional_content: Option<&OptionalContent>,
) -> (r: bool)
    requires
        old(reader).wf(),
    ensures
        final(reader).wf(),
        final(reader).doc() == old(reader).doc(),
        r == oc_visible(
            old(reader).doc(),
            annot@,
            match optional_content {
                Some(c) => Some(c.states),
                None => None,
            },
        ),
{
    let entry: &Object = match annot.get("OC") {
        None => {
            return true;
        },
        Some(o) => o,
    };
    let oc: &OptionalContent = match optional_content {
        None => {
            return true;
        },
        Some(c) => c,
    };
    match entry {
        Object::Reference(id) => match reader.resolve(*id) {
            Ok(Object::Dict(d)) => if dict_is_membership(&d) {
                match parse_membership(reader, &d) {
                    Ok(Some(m)) => oc.evaluate_membership(&m),
                    _ => true,
                }
            } else {
                group_on(&oc.states, id)
            },
            _ => true,
        },
        Object::Dict(d) => if dict_is_membership(d) {
            match parse_membership(reader, d) {
                Ok(Some(m)) => oc.evaluate_membership(&m),
                _ => true,
            }
        } else {
            true
        },
        _ => true,
    }
}

// ------------------------------------------------------------------- laws

/// An expression of opposite meaning: the negation of a conjunction is the
/// disjunction of the negations.
pub proof fn law_not_and(v: Seq<ExprV>, states: OcStates)
    ensures
        holds(ExprV::Not(Box::new(ExprV::And(v))), states) == holds(
            ExprV::Or(v.map_values(|e: ExprV| ExprV::Not(Box::new(e)))),
            states,
        ),
{
    let w = v.map_values(|e: ExprV| ExprV::Not(Box::new(e)));
    if exists|i: int| 0 <= i < v.len() && !holds(#[trigger] v[i], states) {
        let i = choose|i: int| 0 <= i < v.len() && !holds(#[trigger] v[i], states);
        lemma_and_false(v, i, states);
        assert(w[i] == ExprV::Not(Box::new(v[i])));
        assert(holds(ExprV::Not(Box::new(v[i])), states));
        lemma_or_true(w, i, states);
    } else {
        assert(holds(ExprV::And(v), states));
        if holds(ExprV::Or(w), states) {
            let e = ExprV::Or(w);
            let i = choose|i: int| 0 <= i < e->Or_0.len() && holds(#[trigger] e->Or_0[i], states);
            assert(w[i] == ExprV::Not(Box::new(v[i])));
            assert(holds(ExprV::Not(Box::new(v[i])), states));
            assert(holds(v[i], states));
        }
    }
    let a = ExprV::And(v);
    assert(holds(ExprV::Not(Box::new(a)), states) == !holds(a, states));
}

/// A policy and the one that says the opposite never agree, where there are
/// groups at all.
pub proof fn law_opposite_policies(groups: Seq<ObjectId>, states: OcStates)
    requires
        groups.len() > 0,
    ensures
        visible(
            MembershipV { groups, policy: OcVisibilityPolicy::AllOn, expression: None },
            states,
        ) != visible(
            MembershipV { groups, policy: OcVisibilityPolicy::AnyOff, expression: None },
            states,
        ),
        visible(
            MembershipV { groups, policy: OcVisibilityPolicy::AllOff, expression: None },
            states,
        ) != visible(
            MembershipV { groups, policy: OcVisibilityPolicy::AnyOn, expression: None },
            states,
        ),
{
}

/// A membership without groups and without an expression hides nothing.
pub proof fn law_empty_membership_visible(policy: OcVisibilityPolicy, states: OcStates)
    ensures
        visible(MembershipV { groups: Seq::empty(), policy, expression: None }, states),
{
}

/// An expression counts, whatever the policy and the groups are.
pub proof fn law_expression_counts(m: MembershipV, e: ExprV, states: OcStates)
    requires
        m.expression == Some(e),
    ensures
        visible(m, states) == holds(e, states),
{
}

/// A group that a configuration lists both as on and as off is off.
pub proof fn law_off_wins(groups: Seq<GroupV>, config: ConfigV, id: ObjectId)
    requires
        listed(config.off, id),
    ensures
        configured_state(groups, config, id) == Some(false),
{
}

/// An annotation that does not name optional content can be seen.
pub proof fn law_unmarked_annotation_visible(doc: DocV, annot: DictV, states: Option<OcStates>)
    requires
        dict_get(annot, "OC"@) is None,
    ensures
        oc_visible(doc, annot, states),
{
}

/// A document whose catalog has no optional content is read as having none.
pub proof fn law_no_optional_content(doc: DocV, catalog: DictV)
    requires
        doc.catalog() == Ok::<ObjV, Seq<char>>(ObjV::Dict(catalog)),
        dict_get(catalog, "OCProperties"@) is None,
    ensures
        document_content(doc) == Ok::<Option<ContentV>, Seq<char>>(None),
{
}

} // verus!
