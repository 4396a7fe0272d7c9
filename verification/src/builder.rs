//! From a parsed document to the steps that build its live tree: the template of
//! each kind of element, the class list, and the plan, which goes parent first and
//! in document order.

use crate::asset::HtmlUiAsset;
use crate::ast::{forest_view, optional_view, ElementModel, HtmlNode, HtmlTag, NodeModel};
use crate::dimension::{Dimension, DimensionModel};
use crate::error::{ErrorModel, HtmlUiError};
use crate::reconciler::{AssetKey, Binding};
use crate::text::views;
use vstd::prelude::*;
use vstd::string::StringExecFns;

verus! {

/// How a container is placed among its siblings.
#[derive(Debug, Clone, Copy, PartialEq, Eq, Structural)]
pub enum Placement {
    /// In the flow of its parent.
    Flow,
    /// Absolutely, taken out of the flow.
    Absolute,
}

/// How a container lays out its children.
#[derive(Debug, Clone, Copy, PartialEq, Eq, Structural)]
pub enum Layout {
    /// No layout of its own.
    Plain,
    /// A flexible column.
    Column,
    /// A flexible row.
    Row,
}

/// How a container answers hit tests.
#[derive(Debug, Clone, Copy, PartialEq, Eq, Structural)]
pub enum HitTest {
    /// As its surroundings decide.
    Inherited,
    /// Not at all.
    Ignored,
    /// It is hit, and hides what lies beneath it.
    Blocking,
}

/// The style and behaviour that a container gets for its kind.
#[derive(Debug, PartialEq, Eq)]
pub struct Template {
    pub placement: Placement,
    pub layout: Layout,
    /// The gap between rows, where the kind sets one.
    pub row_gap: Option<Dimension>,
    /// The gap between columns, where the kind sets one.
    pub column_gap: Option<Dimension>,
    /// Whether the container fills its parent in both directions.
    pub full_size: bool,
    pub hit_test: HitTest,
    /// Whether the container is a button and takes part in directional navigation.
    pub interactive: bool,
}

/// A template as a value of mathematics.
pub struct TemplateModel {
    pub placement: Placement,
    pub layout: Layout,
    pub row_gap: Option<DimensionModel>,
    pub column_gap: Option<DimensionModel>,
    pub full_size: bool,
    pub hit_test: HitTest,
    pub interactive: bool,
}

impl View for Template {
    type V = TemplateModel;

    open spec fn view(&self) -> TemplateModel {
        TemplateModel {
            placement: self.placement,
            layout: self.layout,
            row_gap: match self.row_gap {
                Some(gap) => Some(gap@),
                None => None,
            },
            column_gap: match self.column_gap {
                Some(gap) => Some(gap@),
                None => None,
            },
            full_size: self.full_size,
            hit_test: self.hit_test,
            interactive: self.interactive,
        }
    }
}

impl TemplateModel {
    /// A container in the flow, without layout, gaps or size, that is no button and
    /// answers hit tests as `hit_test` says.
    pub open spec fn plain(hit_test: HitTest) -> TemplateModel {
        TemplateModel {
            placement: Placement::Flow,
            layout: Layout::Plain,
            row_gap: None,
            column_gap: None,
            full_size: false,
            hit_test,
            interactive: false,
        }
    }

    /// The template of each kind of element:
    /// the root fills its parent, is placed absolutely and is a column with `gap`
    /// between its rows; a vertical box is a column with `gap` between its rows; a
    /// horizontal box is a row with `gap` between its columns; a spacer fills its
    /// parent; none of these, nor a label, answers hit tests. A generic node
    /// inherits them. A button blocks them and is interactive.
    pub open spec fn of(tag: HtmlTag, gap: DimensionModel) -> TemplateModel {
        match tag {
            HtmlTag::Ui => TemplateModel {
                placement: Placement::Absolute,
                layout: Layout::Column,
                row_gap: Some(gap),
                full_size: true,
                ..TemplateModel::plain(HitTest::Ignored)
            },
            HtmlTag::VBox => TemplateModel {
                layout: Layout::Column,
                row_gap: Some(gap),
                ..TemplateModel::plain(HitTest::Ignored)
            },
            HtmlTag::HBox => TemplateModel {
                layout: Layout::Row,
                column_gap: Some(gap),
                ..TemplateModel::plain(HitTest::Ignored)
            },
            HtmlTag::Node => TemplateModel::plain(HitTest::Inherited),
            HtmlTag::Label => TemplateModel::plain(HitTest::Ignored),
            HtmlTag::Button => TemplateModel {
                interactive: true,
                ..TemplateModel::plain(HitTest::Blocking)
            },
            HtmlTag::Spacer => TemplateModel {
                full_size: true,
                ..TemplateModel::plain(HitTest::Ignored)
            },
        }
    }
}

impl Template {
    /// A container in the flow, without layout, gaps or size, that is no button.
    fn plain(hit_test: HitTest) -> (t: Template)
        ensures
            t@ == TemplateModel::plain(hit_test),
    {
        Template {
            placement: Placement::Flow,
            layout: Layout::Plain,
            row_gap: None,
            column_gap: None,
            full_size: false,
            hit_test,
            interactive: false,
        }
    }

    /// The template of an element of kind `tag` whose gap is `gap`.
    pub fn of(tag: HtmlTag, gap: &Dimension) -> (t: Template)
        ensures
            t@ == TemplateModel::of(tag, gap@),
    {
        match tag {
            HtmlTag::Ui => {
                let mut t = Template::plain(HitTest::Ignored);
                t.placement = Placement::Absolute;
                t.layout = Layout::Column;
                t.row_gap = Some(gap.clone());
                t.full_size = true;
                t
            },
            HtmlTag::VBox => {
                let mut t = Template::plain(HitTest::Ignored);
                t.layout = Layout::Column;
                t.row_gap = Some(gap.clone());
                t
            },
            HtmlTag::HBox => {
                let mut t = Template::plain(HitTest::Ignored);
                t.layout = Layout::Row;
                t.column_gap = Some(gap.clone());
                t
            },
            HtmlTag::Node => Template::plain(HitTest::Inherited),
            HtmlTag::Label => Template::plain(HitTest::Ignored),
            HtmlTag::Button => {
                let mut t = Template::plain(HitTest::Blocking);
                t.interactive = true;
                t
            },
            HtmlTag::Spacer => {
                let mut t = Template::plain(HitTest::Ignored);
                t.full_size = true;
                t
            },
        }
    }
}

/// The first `n` of `parts`, with one space between each two.
pub open spec fn joined(parts: Seq<Seq<char>>, n: nat) -> Seq<char>
    decreases n,
{
    if n == 0 || n > parts.len() {
        seq![]
    } else if n == 1 {
        parts[0]
    } else {
        joined(parts, (n - 1) as nat) + seq![' '] + parts[n - 1]
    }
}

/// The class list as one value: nothing where there is no class, else the classes
/// with one space between each two.
pub open spec fn class_list(classes: Seq<Seq<char>>) -> Option<Seq<char>> {
    if classes.len() == 0 {
        None
    } else {
        Some(joined(classes, classes.len()))
    }
}

/// Joins the classes of an element into the one value that the style engine
/// matches selectors against.
pub fn join_classes(classes: &Vec<String>) -> (r: Option<String>)
    ensures
        optional_view(r) == class_list(views(classes@)),
{
    if classes.len() == 0 {
        return None;
    }
    let mut out = classes[0].clone();
    let mut k: usize = 1;
    while k < classes.len()
        invariant
            1 <= k <= classes.len(),
            out@ == joined(views(classes@), k as nat),
        decreases classes.len() - k,
    {
        out.append(" ");
        out.append(classes[k].as_str());
        proof {
            reveal_strlit(" ");
            assert(" "@ =~= seq![' ']);
        }
        k += 1;
    }
    Some(out)
}

/// One step of building a live tree. The steps that make a node number the nodes
/// in the order in which they are made, from 0, and a later step names a node by
/// that number.
#[derive(Debug, PartialEq, Eq)]
pub enum BuildStep {
    /// Make the root, a container that hangs under nothing.
    Root { template: Template },
    /// Make a container under `parent`.
    Container {
        parent: usize,
        template: Template,
        /// The class list, joined, where the element has classes.
        classes: Option<String>,
        /// The name by which the node is looked up.
        name: Option<String>,
        /// Whether the node asks for the focus.
        autofocus: bool,
    },
    /// Make a text leaf under `parent`.
    Text { parent: usize, content: String },
    /// Call the callback registered under `key` on `node`.
    Invoke { node: usize, key: String },
}

/// A step as a value of mathematics.
pub enum StepModel {
    Root { template: TemplateModel },
    Container {
        parent: nat,
        template: TemplateModel,
        classes: Option<Seq<char>>,
        name: Option<Seq<char>>,
        autofocus: bool,
    },
    Text { parent: nat, content: Seq<char> },
    Invoke { node: nat, key: Seq<char> },
}

impl View for BuildStep {
    type V = StepModel;

    open spec fn view(&self) -> StepModel {
        match self {
            BuildStep::Root { template } => StepModel::Root { template: template@ },
            BuildStep::Container { parent, template, classes, name, autofocus } => {
                StepModel::Container {
                    parent: *parent as nat,
                    template: template@,
                    classes: optional_view(*classes),
                    name: optional_view(*name),
                    autofocus: *autofocus,
                }
            },
            BuildStep::Text { parent, content } => StepModel::Text {
                parent: *parent as nat,
                content: content@,
            },
            BuildStep::Invoke { node, key } => StepModel::Invoke { node: *node as nat, key: key@ },
        }
    }
}

/// The views of the steps of a plan, in order.
pub open spec fn steps_view(steps: Seq<BuildStep>) -> Seq<StepModel> {
    Seq::new(steps.len(), |k: int| steps[k]@)
}

/// How many live nodes a node makes: itself and all that is under it.
pub open spec fn node_count(node: NodeModel) -> nat
    decreases node, 0nat,
{
    match node {
        NodeModel::Text(_) => 1,
        NodeModel::Element(el) => 1 + count_of_first(el.children, el.children.len()),
    }
}

/// How many live nodes the first `n` nodes of `forest` make.
pub open spec fn count_of_first(forest: Seq<NodeModel>, n: nat) -> nat
    decreases forest, n,
{
    if 0 < n <= forest.len() {
        count_of_first(forest, (n - 1) as nat) + node_count(forest[n - 1])
    } else {
        0
    }
}

/// The step that makes the container of an element.
pub open spec fn container_step(el: ElementModel, parent: nat) -> StepModel {
    StepModel::Container {
        parent,
        template: TemplateModel::of(el.tag, el.gap),
        classes: class_list(el.classes),
        name: el.name,
        autofocus: el.autofocus,
    }
}

/// The step that calls the callback of an element on the node `id`: one step
/// where the element names a callback that is registered, none otherwise.
pub open spec fn callback_steps(el: ElementModel, id: nat, registered: Seq<Seq<char>>) -> Seq<
    StepModel,
> {
    match el.callback {
        Some(key) => if registered.contains(key) {
            seq![StepModel::Invoke { node: id, key }]
        } else {
            seq![]
        },
        None => seq![],
    }
}

/// The steps that build `node` under `parent`, where `id` is the number of the
/// first node that they make. A text is one leaf. An element is its container,
/// then its children in order under that container, then its callback.
pub open spec fn node_steps(node: NodeModel, parent: nat, id: nat, registered: Seq<Seq<char>>) -> Seq<
    StepModel,
>
    decreases node, 0nat,
{
    match node {
        NodeModel::Text(content) => seq![StepModel::Text { parent, content }],
        NodeModel::Element(el) => seq![container_step(el, parent)] + steps_of_first(
            el.children,
            el.children.len(),
            id,
            id + 1,
            registered,
        ) + callback_steps(el, id, registered),
    }
}

/// The steps that build the first `n` nodes of `forest` under `parent`, one node
/// after the other, where `id` is the number of the first node that they make.
pub open spec fn steps_of_first(
    forest: Seq<NodeModel>,
    n: nat,
    parent: nat,
    id: nat,
    registered: Seq<Seq<char>>,
) -> Seq<StepModel>
    decreases forest, n,
{
    if 0 < n <= forest.len() {
        steps_of_first(forest, (n - 1) as nat, parent, id, registered) + node_steps(
            forest[n - 1],
            parent,
            id + count_of_first(forest, (n - 1) as nat),
            registered,
        )
    } else {
        seq![]
    }
}

/// The step that makes the root: a container of the root kind with no gap set by
/// the markup, under which the top level of the document hangs.
pub open spec fn root_step() -> StepModel {
    StepModel::Root { template: TemplateModel::of(HtmlTag::Ui, DimensionModel::Auto) }
}

/// The plan that builds a forest: the root, which is node 0, and under it the
/// nodes of the top level.
pub open spec fn plan_of(forest: Seq<NodeModel>, registered: Seq<Seq<char>>) -> Seq<StepModel> {
    seq![root_step()] + steps_of_first(forest, forest.len(), 0, 1, registered)
}

/// How many of the first `n` steps make a node.
pub open spec fn made(steps: Seq<StepModel>, n: nat) -> nat
    decreases n,
{
    if 0 < n <= steps.len() {
        made(steps, (n - 1) as nat) + if steps[n - 1] is Invoke {
            0nat
        } else {
            1nat
        }
    } else {
        0
    }
}

/// Whether the step names a node among the first `known`; the root names none,
/// and has to be the first node of all.
pub open spec fn looks_back(step: StepModel, known: nat) -> bool {
    match step {
        StepModel::Root { .. } => known == 0,
        StepModel::Container { parent, .. } => parent < known,
        StepModel::Text { parent, .. } => parent < known,
        StepModel::Invoke { node, .. } => node < known,
    }
}

/// Whether each of the steps names a node that is made before it, where `base`
/// nodes are made before the first of them.
pub open spec fn in_order(steps: Seq<StepModel>, base: nat) -> bool {
    forall|k: int| 0 <= k < steps.len() ==> looks_back(#[trigger] steps[k], base + made(steps, k as nat))
}

/// The nodes made by two runs of steps, one behind the other, add up.
proof fn lemma_made_append(a: Seq<StepModel>, b: Seq<StepModel>, n: nat)
    requires
        n <= a.len() + b.len(),
    ensures
        made(a + b, n) == if n <= a.len() {
            made(a, n)
        } else {
            made(a, a.len()) + made(b, (n - a.len()) as nat)
        },
    decreases n,
{
    if n > 0 {
        lemma_made_append(a, b, (n - 1) as nat);
    }
}

/// Two runs of steps that are in order are in order one behind the other.
proof fn lemma_in_order_append(a: Seq<StepModel>, b: Seq<StepModel>, base: nat)
    requires
        in_order(a, base),
        in_order(b, base + made(a, a.len())),
    ensures
        in_order(a + b, base),
        made(a + b, (a + b).len()) == made(a, a.len()) + made(b, b.len()),
{
    let all = a + b;
    lemma_made_append(a, b, all.len());
    assert forall|k: int| 0 <= k < all.len() implies looks_back(
        #[trigger] all[k],
        base + made(all, k as nat),
    ) by {
        lemma_made_append(a, b, k as nat);
        if k < a.len() {
            assert(all[k] == a[k]);
        } else {
            assert(all[k] == b[k - a.len()]);
        }
    }
}

/// The steps of a node make as many nodes as the node counts, and each names a
/// node that is there before it: the parent, or a node that they have made.
proof fn lemma_node_steps_in_order(
    node: NodeModel,
    parent: nat,
    id: nat,
    registered: Seq<Seq<char>>,
)
    requires
        parent < id,
    ensures
        in_order(node_steps(node, parent, id, registered), id),
        made(
            node_steps(node, parent, id, registered),
            node_steps(node, parent, id, registered).len(),
        ) == node_count(node),
    decreases node, 0nat,
{
    let steps = node_steps(node, parent, id, registered);
    match node {
        NodeModel::Text(content) => {
            assert(made(steps, 0) == 0);
        },
        NodeModel::Element(el) => {
            let head = seq![container_step(el, parent)];
            let kids = steps_of_first(el.children, el.children.len(), id, id + 1, registered);
            let tail = callback_steps(el, id, registered);
            assert(made(head, 0) == 0);
            assert(in_order(head, id));
            assert(made(head, 1) == 1);
            lemma_forest_steps_in_order(el.children, el.children.len(), id, id + 1, registered);
            lemma_in_order_append(head, kids, id);
            assert(made(tail, 0) == 0);
            assert(in_order(tail, id + made(head + kids, (head + kids).len())));
            assert(made(tail, tail.len()) == 0) by {
                if tail.len() > 0 {
                    assert(made(tail, 1) == 0);
                }
            }
            lemma_in_order_append(head + kids, tail, id);
        },
    }
}

/// The steps of the first `n` nodes of a forest make as many nodes as those count,
/// and are in order.
proof fn lemma_forest_steps_in_order(
    forest: Seq<NodeModel>,
    n: nat,
    parent: nat,
    id: nat,
    registered: Seq<Seq<char>>,
)
    requires
        parent < id,
        n <= forest.len(),
    ensures
        in_order(steps_of_first(forest, n, parent, id, registered), id),
        made(
            steps_of_first(forest, n, parent, id, registered),
            steps_of_first(forest, n, parent, id, registered).len(),
        ) == count_of_first(forest, n),
    decreases forest, n,
{
    if n > 0 {
        let before = steps_of_first(forest, (n - 1) as nat, parent, id, registered);
        let next = id + count_of_first(forest, (n - 1) as nat);
        lemma_forest_steps_in_order(forest, (n - 1) as nat, parent, id, registered);
        lemma_node_steps_in_order(forest[n - 1], parent, next, registered);
        lemma_in_order_append(before, node_steps(forest[n - 1], parent, next, registered), id);
    } else {
        assert(made(steps_of_first(forest, n, parent, id, registered), 0) == 0);
    }
}

/// A plan goes parent first: its first step makes the root, every other step
/// names a node that an earlier step has made, and it makes the root and one node
/// for each node of the forest.
pub proof fn lemma_plan_in_order(forest: Seq<NodeModel>, registered: Seq<Seq<char>>)
    ensures
        plan_of(forest, registered)[0] == root_step(),
        in_order(plan_of(forest, registered), 0),
        made(plan_of(forest, registered), plan_of(forest, registered).len()) == 1 + count_of_first(
            forest,
            forest.len(),
        ),
{
    let head = seq![root_step()];
    assert(made(head, 0) == 0);
    assert(made(head, 1) == 1);
    assert(in_order(head, 0));
    lemma_forest_steps_in_order(forest, forest.len(), 0, 1, registered);
    lemma_in_order_append(head, steps_of_first(forest, forest.len(), 0, 1, registered), 0);
}

/// Whether `key` is among `registered`.
fn is_registered(registered: &Vec<String>, key: &String) -> (b: bool)
    ensures
        b == views(registered@).contains(key@),
{
    let mut k: usize = 0;
    while k < registered.len()
        invariant
            k <= registered.len(),
            forall|j: int| 0 <= j < k ==> views(registered@)[j] != key@,
        decreases registered.len() - k,
    {
        if registered[k] == *key {
            assert(views(registered@)[k as int] == key@);
            return true;
        }
        k += 1;
    }
    false
}

/// Adds to `steps` the steps that build `node` under `parent`; `next` is the
/// number of the first node that they make, and the result the number of the first
/// node behind them.
#[verifier::loop_isolation(false)]
fn plan_node(
    node: &HtmlNode,
    parent: usize,
    next: usize,
    registered: &Vec<String>,
    steps: &mut Vec<BuildStep>,
) -> (after: usize)
    requires
        next <= old(steps)@.len(),
    ensures
        steps_view(final(steps)@) == steps_view(old(steps)@) + node_steps(
            node@,
            parent as nat,
            next as nat,
            views(registered@),
        ),
        after == next + node_count(node@),
        after <= final(steps)@.len(),
    decreases node,
{
    let ghost before = steps_view(steps@);
    match node {
        HtmlNode::Text(content) => {
            steps.push(BuildStep::Text { parent, content: content.clone() });
            assert(steps@.len() == steps.len());
            assert(steps_view(steps@) =~= before + node_steps(
                node@,
                parent as nat,
                next as nat,
                views(registered@),
            ));
            next + 1
        },
        HtmlNode::Element(el) => {
            let ghost keys = views(registered@);
            let ghost kids = forest_view(el.children@);
            steps.push(
                BuildStep::Container {
                    parent,
                    template: Template::of(el.tag, &el.gap),
                    classes: join_classes(&el.classes),
                    name: match &el.name_id {
                        Some(name) => Some(name.clone()),
                        None => None,
                    },
                    autofocus: el.autofocus,
                },
            );
            assert(steps_view(steps@) =~= before + seq![container_step(el@, parent as nat)]);
            assert(steps@.len() == steps.len());
            let id = next;
            let mut following = next + 1;
            let mut k: usize = 0;
            while k < el.children.len()
                invariant
                    k <= el.children.len(),
                    kids == forest_view(el.children@),
                    keys == views(registered@),
                    following == id + 1 + count_of_first(kids, k as nat),
                    following <= steps@.len(),
                    steps_view(steps@) == before + seq![container_step(el@, parent as nat)]
                        + steps_of_first(kids, k as nat, id as nat, (id + 1) as nat, keys),
                decreases el.children.len() - k,
            {
                let ghost so_far = steps_view(steps@);
                following = plan_node(&el.children[k], id, following, registered, steps);
                assert(kids[k as int] == el.children[k as int]@);
                assert(steps_view(steps@) =~= before + seq![container_step(el@, parent as nat)]
                    + steps_of_first(kids, (k + 1) as nat, id as nat, (id + 1) as nat, keys));
                k += 1;
            }
            let ghost built = steps_view(steps@);
            if let Some(key) = &el.callback {
                if is_registered(registered, key) {
                    steps.push(BuildStep::Invoke { node: id, key: key.clone() });
                    assert(steps_view(steps@) =~= built + seq![
                        StepModel::Invoke { node: id as nat, key: key@ },
                    ]);
                }
            }
            assert(steps_view(steps@) =~= built + callback_steps(el@, id as nat, keys));
            assert(steps_view(steps@) =~= before + node_steps(
                node@,
                parent as nat,
                next as nat,
                keys,
            ));
            following
        },
    }
}

/// The plan that builds `forest` under a root of its own. A callback is called
/// only where its key is among `registered`; a key that is not there is passed
/// over.
pub fn plan_forest(forest: &Vec<HtmlNode>, registered: &Vec<String>) -> (steps: Vec<BuildStep>)
    ensures
        steps_view(steps@) == plan_of(forest_view(forest@), views(registered@)),
{
    let mut steps: Vec<BuildStep> = Vec::new();
    steps.push(BuildStep::Root { template: Template::of(HtmlTag::Ui, &Dimension::Auto) });
    assert(steps_view(steps@) =~= seq![root_step()]);
    let ghost nodes = forest_view(forest@);
    let ghost keys = views(registered@);
    let mut following: usize = 1;
    let mut k: usize = 0;
    while k < forest.len()
        invariant
            k <= forest.len(),
            nodes == forest_view(forest@),
            keys == views(registered@),
            following == 1 + count_of_first(nodes, k as nat),
            following <= steps@.len(),
            steps_view(steps@) == seq![root_step()] + steps_of_first(nodes, k as nat, 0, 1, keys),
        decreases forest.len() - k,
    {
        following = plan_node(&forest[k], 0, following, registered, &mut steps);
        assert(nodes[k as int] == forest[k as int]@);
        assert(steps_view(steps@) =~= seq![root_step()] + steps_of_first(
            nodes,
            (k + 1) as nat,
            0,
            1,
            keys,
        ));
        k += 1;
    }
    steps
}

/// All that a build needs: the source that the tree shows, the style sheet that
/// its root is bound to, and the steps that make it.
#[derive(Debug, PartialEq, Eq)]
pub struct BuildPlan {
    pub source: AssetKey,
    pub style: Option<AssetKey>,
    pub steps: Vec<BuildStep>,
}

/// Plans the tree of the source `source`, whose content is `asset`, under the
/// configuration `config`. Without a configuration there is nothing to build for;
/// with one, the content has to be there.
pub fn plan_html_ui(
    source: AssetKey,
    config: Option<&Binding>,
    asset: Option<&HtmlUiAsset>,
    registered: &Vec<String>,
) -> (r: Result<BuildPlan, HtmlUiError>)
    ensures
        match r {
            Ok(plan) => {
                &&& config matches Some(binding) && plan.style == binding.style
                &&& asset matches Some(content) && steps_view(plan.steps@) == plan_of(
                    forest_view(content.ast@),
                    views(registered@),
                )
                &&& plan.source == source
            },
            Err(e) => if config is None {
                e@ == ErrorModel::ResourceNotFound
            } else {
                asset is None && e@ == ErrorModel::AssetNotFound
            },
        },
{
    let binding = match config {
        Some(binding) => binding,
        None => {
            return Err(HtmlUiError::ResourceNotFound);
        },
    };
    let content = match asset {
        Some(content) => content,
        None => {
            return Err(HtmlUiError::AssetNotFound);
        },
    };
    Ok(BuildPlan { source, style: binding.style, steps: plan_forest(&content.ast, registered) })
}

} // verus!
