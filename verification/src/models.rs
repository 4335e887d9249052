//! The data model of a novel project: world objects, the chapter structure
//! tree, foreshadows, milestones, UI enums and the LLM history.
use vstd::prelude::*;

verus! {

// ── ObjectKind ───────────────────────────────────────────────────────────────

/// The category of a world object (content element).
#[derive(Clone, Copy, Debug, PartialEq, Eq, Structural)]
pub enum ObjectKind {
    Character,
    Scene,
    Location,
    Item,
    Faction,
    Other,
}

/// Display label of an object kind.
pub open spec fn object_kind_label(k: ObjectKind) -> Seq<char> {
    match k {
        ObjectKind::Character => "人物"@,
        ObjectKind::Scene => "场景"@,
        ObjectKind::Location => "地点"@,
        ObjectKind::Item => "道具"@,
        ObjectKind::Faction => "势力"@,
        ObjectKind::Other => "其他"@,
    }
}

/// Display icon of an object kind.
pub open spec fn object_kind_icon(k: ObjectKind) -> Seq<char> {
    match k {
        ObjectKind::Character => "👤"@,
        ObjectKind::Scene => "🎭"@,
        ObjectKind::Location => "📍"@,
        ObjectKind::Item => "🗡"@,
        ObjectKind::Faction => "🏰"@,
        ObjectKind::Other => "⬡"@,
    }
}

impl ObjectKind {
    pub fn label(&self) -> (r: &'static str)
        ensures
            r@ == object_kind_label(*self),
    {
        match self {
            ObjectKind::Character => "人物",
            ObjectKind::Scene => "场景",
            ObjectKind::Location => "地点",
            ObjectKind::Item => "道具",
            ObjectKind::Faction => "势力",
            ObjectKind::Other => "其他",
        }
    }

    pub fn icon(&self) -> (r: &'static str)
        ensures
            r@ == object_kind_icon(*self),
    {
        match self {
            ObjectKind::Character => "👤",
            ObjectKind::Scene => "🎭",
            ObjectKind::Location => "📍",
            ObjectKind::Item => "🗡",
            ObjectKind::Faction => "🏰",
            ObjectKind::Other => "⬡",
        }
    }

    /// Every object kind, in display order.
    pub fn all() -> (r: &'static [ObjectKind])
        ensures
            r@ == seq![
                ObjectKind::Character,
                ObjectKind::Scene,
                ObjectKind::Location,
                ObjectKind::Item,
                ObjectKind::Faction,
                ObjectKind::Other,
            ],
    {
        let r: &'static [ObjectKind] = &[
            ObjectKind::Character,
            ObjectKind::Scene,
            ObjectKind::Location,
            ObjectKind::Item,
            ObjectKind::Faction,
            ObjectKind::Other,
        ];
        assert(r@ =~= seq![
            ObjectKind::Character,
            ObjectKind::Scene,
            ObjectKind::Location,
            ObjectKind::Item,
            ObjectKind::Faction,
            ObjectKind::Other,
        ]);
        r
    }
}


// ── RelationKind ─────────────────────────────────────────────────────────────

/// The semantic type of a link between two elements.
#[derive(Clone, Copy, Debug, PartialEq, Eq, Structural)]
pub enum RelationKind {
    Friend,
    Enemy,
    Family,
    Owns,
    LocatedAt,
    BelongsTo,
    AppearsIn,
    MentionedIn,
    Foreshadows,
    Resolves,
    Parallels,
    Other,
}

/// Display label of a relation kind.
pub open spec fn relation_kind_label(k: RelationKind) -> Seq<char> {
    match k {
        RelationKind::Friend => "友好"@,
        RelationKind::Enemy => "敌对"@,
        RelationKind::Family => "亲属"@,
        RelationKind::Owns => "持有"@,
        RelationKind::LocatedAt => "所在"@,
        RelationKind::BelongsTo => "所属"@,
        RelationKind::AppearsIn => "出场"@,
        RelationKind::MentionedIn => "提及"@,
        RelationKind::Foreshadows => "铺垫"@,
        RelationKind::Resolves => "回收"@,
        RelationKind::Parallels => "并行"@,
        RelationKind::Other => "其他"@,
    }
}

impl RelationKind {
    pub fn label(&self) -> (r: &'static str)
        ensures
            r@ == relation_kind_label(*self),
    {
        match self {
            RelationKind::Friend => "友好",
            RelationKind::Enemy => "敌对",
            RelationKind::Family => "亲属",
            RelationKind::Owns => "持有",
            RelationKind::LocatedAt => "所在",
            RelationKind::BelongsTo => "所属",
            RelationKind::AppearsIn => "出场",
            RelationKind::MentionedIn => "提及",
            RelationKind::Foreshadows => "铺垫",
            RelationKind::Resolves => "回收",
            RelationKind::Parallels => "并行",
            RelationKind::Other => "其他",
        }
    }

    /// Every relation kind, in display order.
    pub fn all() -> (r: &'static [RelationKind])
        ensures
            r@ == seq![
                RelationKind::Friend,
                RelationKind::Enemy,
                RelationKind::Family,
                RelationKind::Owns,
                RelationKind::LocatedAt,
                RelationKind::BelongsTo,
                RelationKind::AppearsIn,
                RelationKind::MentionedIn,
                RelationKind::Foreshadows,
                RelationKind::Resolves,
                RelationKind::Parallels,
                RelationKind::Other,
            ],
    {
        let r: &'static [RelationKind] = &[
            RelationKind::Friend,
            RelationKind::Enemy,
            RelationKind::Family,
            RelationKind::Owns,
            RelationKind::LocatedAt,
            RelationKind::BelongsTo,
            RelationKind::AppearsIn,
            RelationKind::MentionedIn,
            RelationKind::Foreshadows,
            RelationKind::Resolves,
            RelationKind::Parallels,
            RelationKind::Other,
        ];
        assert(r@ =~= seq![
            RelationKind::Friend,
            RelationKind::Enemy,
            RelationKind::Family,
            RelationKind::Owns,
            RelationKind::LocatedAt,
            RelationKind::BelongsTo,
            RelationKind::AppearsIn,
            RelationKind::MentionedIn,
            RelationKind::Foreshadows,
            RelationKind::Resolves,
            RelationKind::Parallels,
            RelationKind::Other,
        ]);
        r
    }
}

// ── LinkTarget / ObjectLink / WorldObject ────────────────────────────────────

/// What a link points to: another world object (by name) or a structure node
/// (by title).
#[derive(Clone, Debug)]
pub enum LinkTarget {
    Object(String),
    Node(String),
}

impl LinkTarget {
    /// The name or title the link points to.
    pub fn display_name(&self) -> (r: &str)
        ensures
            r@ == match self {
                LinkTarget::Object(n) => n@,
                LinkTarget::Node(n) => n@,
            },
    {
        match self {
            LinkTarget::Object(n) => n.as_str(),
            LinkTarget::Node(n) => n.as_str(),
        }
    }

    /// `"对象"` for an object target, `"章节"` for a node target.
    pub fn type_label(&self) -> (r: &'static str)
        ensures
            r@ == match self {
                LinkTarget::Object(_) => "对象"@,
                LinkTarget::Node(_) => "章节"@,
            },
    {
        match self {
            LinkTarget::Object(_) => "对象",
            LinkTarget::Node(_) => "章节",
        }
    }
}

/// A directed association from a world object to another element.
#[derive(Clone, Debug)]
pub struct ObjectLink {
    pub target: LinkTarget,
    pub kind: RelationKind,
    pub note: String,
}

/// A content element: character, scene, location, item, faction, …
#[derive(Clone, Debug)]
pub struct WorldObject {
    pub name: String,
    pub kind: ObjectKind,
    pub description: String,
    pub background: String,
    pub links: Vec<ObjectLink>,
}

impl WorldObject {
    /// A world object with the given name and kind, empty description and
    /// background, and no links.
    pub fn new(name: &str, kind: ObjectKind) -> (r: Self)
        ensures
            r.name@ == name@,
            r.kind == kind,
            r.description@ == Seq::<char>::empty(),
            r.background@ == Seq::<char>::empty(),
            r.links@ == Seq::<ObjectLink>::empty(),
    {
        WorldObject {
            name: name.to_owned(),
            kind,
            description: String::new(),
            background: String::new(),
            links: Vec::new(),
        }
    }

    /// The icon of the object's kind.
    pub fn icon(&self) -> (r: &'static str)
        ensures
            r@ == object_kind_icon(self.kind),
    {
        self.kind.icon()
    }
}

// ── ChapterTag ───────────────────────────────────────────────────────────────

/// The narrative role of a chapter.
#[derive(Clone, Copy, Debug, PartialEq, Eq, Structural)]
pub enum ChapterTag {
    Normal,
    Climax,
    Foreshadow,
    Transition,
}

/// Display label of a chapter tag.
pub open spec fn chapter_tag_label(t: ChapterTag) -> Seq<char> {
    match t {
        ChapterTag::Normal => "普通"@,
        ChapterTag::Climax => "高潮"@,
        ChapterTag::Foreshadow => "伏笔"@,
        ChapterTag::Transition => "过渡"@,
    }
}

/// Display colour of a chapter tag as red, green and blue components.
pub open spec fn chapter_tag_rgb(t: ChapterTag) -> (u8, u8, u8) {
    match t {
        ChapterTag::Normal => (160, 160, 160),
        ChapterTag::Climax => (220, 80, 80),
        ChapterTag::Foreshadow => (80, 160, 220),
        ChapterTag::Transition => (120, 190, 120),
    }
}

impl ChapterTag {
    pub fn label(&self) -> (r: &'static str)
        ensures
            r@ == chapter_tag_label(*self),
    {
        match self {
            ChapterTag::Normal => "普通",
            ChapterTag::Climax => "高潮",
            ChapterTag::Foreshadow => "伏笔",
            ChapterTag::Transition => "过渡",
        }
    }

    /// Every chapter tag, in display order.
    pub fn all() -> (r: &'static [ChapterTag])
        ensures
            r@ == seq![
                ChapterTag::Normal,
                ChapterTag::Climax,
                ChapterTag::Foreshadow,
                ChapterTag::Transition,
            ],
    {
        let r: &'static [ChapterTag] = &[
            ChapterTag::Normal,
            ChapterTag::Climax,
            ChapterTag::Foreshadow,
            ChapterTag::Transition,
        ];
        assert(r@ =~= seq![
            ChapterTag::Normal,
            ChapterTag::Climax,
            ChapterTag::Foreshadow,
            ChapterTag::Transition,
        ]);
        r
    }

    /// The tag's display colour as `(red, green, blue)`.
    pub fn rgb(&self) -> (r: (u8, u8, u8))
        ensures
            r == chapter_tag_rgb(*self),
    {
        match self {
            ChapterTag::Normal => (160, 160, 160),
            ChapterTag::Climax => (220, 80, 80),
            ChapterTag::Foreshadow => (80, 160, 220),
            ChapterTag::Transition => (120, 190, 120),
        }
    }
}

// ── StructKind ───────────────────────────────────────────────────────────────

/// The hierarchical level of a structure node.
#[derive(Clone, Copy, Debug, PartialEq, Eq, Structural)]
pub enum StructKind {
    Outline,
    Volume,
    Chapter,
    Section,
}

/// Display label of a structure level.
pub open spec fn struct_kind_label(k: StructKind) -> Seq<char> {
    match k {
        StructKind::Outline => "总纲"@,
        StructKind::Volume => "卷"@,
        StructKind::Chapter => "章"@,
        StructKind::Section => "节"@,
    }
}

/// Depth of a structure level (Outline 0 … Section 3).
pub open spec fn struct_kind_depth(k: StructKind) -> nat {
    match k {
        StructKind::Outline => 0,
        StructKind::Volume => 1,
        StructKind::Chapter => 2,
        StructKind::Section => 3,
    }
}

/// The natural child level of a structure level.
pub open spec fn child_kind_of(k: StructKind) -> StructKind {
    match k {
        StructKind::Outline => StructKind::Volume,
        StructKind::Volume => StructKind::Chapter,
        StructKind::Chapter => StructKind::Section,
        StructKind::Section => StructKind::Section,
    }
}

impl StructKind {
    pub fn label(&self) -> (r: &'static str)
        ensures
            r@ == struct_kind_label(*self),
    {
        match self {
            StructKind::Outline => "总纲",
            StructKind::Volume => "卷",
            StructKind::Chapter => "章",
            StructKind::Section => "节",
        }
    }

    pub fn icon(&self) -> (r: &'static str)
        ensures
            r@ == match *self {
                StructKind::Outline => "📋"@,
                StructKind::Volume => "📚"@,
                StructKind::Chapter => "📖"@,
                StructKind::Section => "📑"@,
            },
    {
        match self {
            StructKind::Outline => "📋",
            StructKind::Volume => "📚",
            StructKind::Chapter => "📖",
            StructKind::Section => "📑",
        }
    }

    /// Every structure level, from the top down.
    pub fn all() -> (r: &'static [StructKind])
        ensures
            r@ == seq![
                StructKind::Outline,
                StructKind::Volume,
                StructKind::Chapter,
                StructKind::Section,
            ],
    {
        let r: &'static [StructKind] = &[
            StructKind::Outline,
            StructKind::Volume,
            StructKind::Chapter,
            StructKind::Section,
        ];
        assert(r@ =~= seq![
            StructKind::Outline,
            StructKind::Volume,
            StructKind::Chapter,
            StructKind::Section,
        ]);
        r
    }

    /// The natural child kind when adding a child to this level: one level
    /// deeper, and `Section` stays `Section`.
    pub fn default_child_kind(&self) -> (r: StructKind)
        ensures
            r == child_kind_of(*self),
            struct_kind_depth(r) == if struct_kind_depth(*self) < 3 {
                struct_kind_depth(*self) + 1
            } else {
                3
            },
    {
        match self {
            StructKind::Outline => StructKind::Volume,
            StructKind::Volume => StructKind::Chapter,
            StructKind::Chapter => StructKind::Section,
            StructKind::Section => StructKind::Section,
        }
    }
}


// ── NodeLink / StructNode ────────────────────────────────────────────────────

/// A non-parent cross-link between two structure nodes.
#[derive(Clone, Debug)]
pub struct NodeLink {
    pub target_title: String,
    pub kind: RelationKind,
    pub note: String,
}

/// A hierarchical structure element (总纲 / 卷 / 章 / 节).
#[derive(Debug)]
pub struct StructNode {
    pub title: String,
    pub kind: StructKind,
    pub tag: ChapterTag,
    pub summary: String,
    pub done: bool,
    /// Nested children (e.g. a Volume contains Chapters).
    pub children: Vec<StructNode>,
    /// Names of world objects associated with this node.
    pub linked_objects: Vec<String>,
    /// Non-parent cross-links to other structure nodes.
    pub node_links: Vec<NodeLink>,
}

/// The mathematical value of a structure node: its texts as character
/// sequences and its children as values.
pub struct StructNodeView {
    pub title: Seq<char>,
    pub kind: StructKind,
    pub tag: ChapterTag,
    pub summary: Seq<char>,
    pub done: bool,
    pub children: Seq<StructNodeView>,
    pub linked_objects: Seq<Seq<char>>,
    pub node_links: Seq<(Seq<char>, RelationKind, Seq<char>)>,
}

impl View for StructNode {
    type V = StructNodeView;

    open spec fn view(&self) -> StructNodeView {
        node_view(*self)
    }
}

/// The value of a structure node.
pub open spec fn node_view(n: StructNode) -> StructNodeView
    decreases n,
{
    StructNodeView {
        title: n.title@,
        kind: n.kind,
        tag: n.tag,
        summary: n.summary@,
        done: n.done,
        children: list_view(n.children@),
        linked_objects: n.linked_objects@.map_values(|s: String| s@),
        node_links: n.node_links@.map_values(|l: NodeLink| (l.target_title@, l.kind, l.note@)),
    }
}

/// The values of a list of structure nodes.
pub open spec fn list_view(s: Seq<StructNode>) -> Seq<StructNodeView>
    decreases s,
{
    if s.len() == 0 {
        seq![]
    } else {
        list_view(s.drop_last()).push(node_view(s.last()))
    }
}

/// Number of leaves (nodes without children) of a tree.
pub open spec fn leaves(n: StructNodeView) -> nat
    decreases n, 1nat,
{
    if n.children.len() == 0 {
        1
    } else {
        leaves_list(n.children)
    }
}

/// Number of leaves of a forest.
pub open spec fn leaves_list(s: Seq<StructNodeView>) -> nat
    decreases s, 0nat,
{
    if s.len() == 0 {
        0
    } else {
        leaves_list(s.drop_last()) + leaves(s.last())
    }
}

/// Number of leaves marked done of a tree.
pub open spec fn done_leaves(n: StructNodeView) -> nat
    decreases n, 1nat,
{
    if n.children.len() == 0 {
        if n.done {
            1
        } else {
            0
        }
    } else {
        done_leaves_list(n.children)
    }
}

/// Number of leaves marked done of a forest.
pub open spec fn done_leaves_list(s: Seq<StructNodeView>) -> nat
    decreases s, 0nat,
{
    if s.len() == 0 {
        0
    } else {
        done_leaves_list(s.drop_last()) + done_leaves(s.last())
    }
}

/// Number of nodes of a forest.
pub open spec fn node_count_list(s: Seq<StructNodeView>) -> nat
    decreases s,
{
    if s.len() == 0 {
        0
    } else {
        node_count_list(s.drop_last()) + 1 + node_count_list(s.last().children)
    }
}

/// Titles of a forest in depth-first pre-order.
pub open spec fn titles_list(s: Seq<StructNodeView>) -> Seq<Seq<char>>
    decreases s,
{
    if s.len() == 0 {
        seq![]
    } else {
        titles_list(s.drop_last()) + seq![s.last().title] + titles_list(s.last().children)
    }
}

/// The node reached from `roots` by following the child indices of `path`.
pub open spec fn node_at_path(roots: Seq<StructNodeView>, path: Seq<usize>) -> Option<
    StructNodeView,
>
    decreases path.len(),
{
    if path.len() == 0 || path[0] >= roots.len() {
        None
    } else if path.len() == 1 {
        Some(roots[path[0] as int])
    } else {
        node_at_path(roots[path[0] as int].children, path.drop_first())
    }
}

// ── Laws of the structure tree ───────────────────────────────────────────────

/// A tree never has more done leaves than leaves.
pub proof fn lemma_done_le_leaves(n: StructNodeView)
    ensures
        done_leaves(n) <= leaves(n),
    decreases n, 1nat,
{
    if n.children.len() > 0 {
        lemma_done_le_leaves_list(n.children);
    }
}

/// A forest never has more done leaves than leaves.
pub proof fn lemma_done_le_leaves_list(s: Seq<StructNodeView>)
    ensures
        done_leaves_list(s) <= leaves_list(s),
    decreases s, 0nat,
{
    if s.len() > 0 {
        lemma_done_le_leaves_list(s.drop_last());
        lemma_done_le_leaves(s.last());
    }
}

/// The depth-first title list has one title per node.
pub proof fn lemma_titles_count(s: Seq<StructNodeView>)
    ensures
        titles_list(s).len() == node_count_list(s),
    decreases s,
{
    if s.len() > 0 {
        lemma_titles_count(s.drop_last());
        lemma_titles_count(s.last().children);
    }
}

proof fn lemma_leaves_prefix(s: Seq<StructNodeView>, i: int)
    requires
        0 <= i <= s.len(),
    ensures
        leaves_list(s.take(i)) <= leaves_list(s),
    decreases s.len(),
{
    if i == s.len() {
        assert(s.take(i) =~= s);
    } else {
        lemma_leaves_prefix(s.drop_last(), i);
        assert(s.drop_last().take(i) =~= s.take(i));
    }
}

/// The values of the first `i + 1` nodes.
pub proof fn lemma_views_take(nodes: Seq<StructNode>, i: int)
    requires
        0 <= i < nodes.len(),
    ensures
        list_view(nodes.take(i + 1)) == list_view(nodes.take(i)).push(nodes[i]@),
        list_view(nodes.take(i + 1)).drop_last() == list_view(nodes.take(i)),
        list_view(nodes.take(i + 1)).last() == nodes[i]@,
        list_view(nodes.take(i + 1)) == list_view(nodes).take(i + 1),
{
    assert(nodes.take(i + 1).drop_last() =~= nodes.take(i));
    assert(nodes.take(i + 1).last() == nodes[i]);
    assert(list_view(nodes.take(i)).push(nodes[i]@).drop_last() =~= list_view(nodes.take(i)));
    lemma_list_view(nodes);
    lemma_list_view(nodes.take(i + 1));
    assert(list_view(nodes.take(i + 1)) =~= list_view(nodes).take(i + 1));
}

/// The value of a list has one value per node, in order.
pub proof fn lemma_list_view(s: Seq<StructNode>)
    ensures
        list_view(s).len() == s.len(),
        forall|i: int| 0 <= i < s.len() ==> #[trigger] list_view(s)[i] == s[i]@,
    decreases s.len(),
{
    if s.len() > 0 {
        lemma_list_view(s.drop_last());
        assert forall|i: int| 0 <= i < s.len() implies #[trigger] list_view(s)[i] == s[i]@ by {
            if i < s.len() - 1 {
                assert(list_view(s)[i] == list_view(s.drop_last())[i]);
            }
        }
    }
}

impl StructNode {
    /// A node with the given title and kind, tag `Normal`, empty summary, not
    /// done, and no children, linked objects or links.
    pub fn new(title: &str, kind: StructKind) -> (r: Self)
        ensures
            r.title@ == title@,
            r.kind == kind,
            r.tag == ChapterTag::Normal,
            r.summary@ == Seq::<char>::empty(),
            !r.done,
            r.children@ == Seq::<StructNode>::empty(),
            r.linked_objects@ == Seq::<String>::empty(),
            r.node_links@ == Seq::<NodeLink>::empty(),
    {
        StructNode {
            title: title.to_owned(),
            kind,
            tag: ChapterTag::Normal,
            summary: String::new(),
            done: false,
            children: Vec::new(),
            linked_objects: Vec::new(),
            node_links: Vec::new(),
        }
    }

    /// Number of leaf nodes (nodes without children) of this tree.
    pub fn leaf_count(&self) -> (r: usize)
        requires
            leaves(self@) <= usize::MAX,
        ensures
            r == leaves(self@),
        decreases self,
    {
        if self.children.len() == 0 {
            return 1;
        }
        let ghost kids = self@.children;
        let mut sum: usize = 0;
        for i in 0..self.children.len()
            invariant
                kids == list_view(self.children@),
                leaves(self@) == leaves_list(kids),
                leaves_list(kids) <= usize::MAX,
                sum == leaves_list(list_view(self.children@.take(i as int))),
        {
            proof {
                lemma_views_take(self.children@, i as int);
                lemma_list_view(self.children@);
                lemma_leaves_prefix(kids, i + 1);
                assert(decreases_to!(self => self.children));
            }
            let c = self.children[i].leaf_count();
            sum = sum + c;
        }
        assert(self.children@.take(self.children.len() as int) =~= self.children@);
        sum
    }

    /// Number of leaf nodes marked done of this tree.
    pub fn done_count(&self) -> (r: usize)
        requires
            leaves(self@) <= usize::MAX,
        ensures
            r == done_leaves(self@),
            r <= leaves(self@),
        decreases self,
    {
        proof {
            lemma_done_le_leaves(self@);
        }
        if self.children.len() == 0 {
            return if self.done {
                1
            } else {
                0
            };
        }
        let ghost kids = self@.children;
        let mut sum: usize = 0;
        for i in 0..self.children.len()
            invariant
                kids == list_view(self.children@),
                leaves(self@) == leaves_list(kids),
                leaves_list(kids) <= usize::MAX,
                sum == done_leaves_list(list_view(self.children@.take(i as int))),
                sum <= leaves_list(list_view(self.children@.take(i as int))),
        {
            proof {
                lemma_views_take(self.children@, i as int);
                lemma_list_view(self.children@);
                lemma_leaves_prefix(kids, i + 1);
                lemma_done_le_leaves(self.children@[i as int]@);
                assert(decreases_to!(self => self.children));
            }
            let c = self.children[i].done_count();
            sum = sum + c;
        }
        assert(self.children@.take(self.children.len() as int) =~= self.children@);
        sum
    }
}


/// `roots` with the node at `path` replaced by `v` (unchanged when `path`
/// leads nowhere).
pub open spec fn replace_at_path(
    roots: Seq<StructNodeView>,
    path: Seq<usize>,
    v: StructNodeView,
) -> Seq<StructNodeView>
    decreases path.len(),
{
    if path.len() == 0 || path[0] >= roots.len() {
        roots
    } else if path.len() == 1 {
        roots.update(path[0] as int, v)
    } else {
        let n = roots[path[0] as int];
        roots.update(
            path[0] as int,
            StructNodeView {
                title: n.title,
                kind: n.kind,
                tag: n.tag,
                summary: n.summary,
                done: n.done,
                children: replace_at_path(n.children, path.drop_first(), v),
                linked_objects: n.linked_objects,
                node_links: n.node_links,
            },
        )
    }
}

/// Navigate into a tree of structure nodes by a path of child indices.
pub fn node_at<'a>(roots: &'a [StructNode], path: &[usize]) -> (r: Option<&'a StructNode>)
    ensures
        match r {
            Some(n) => node_at_path(list_view(roots@), path@) == Some(n@),
            None => node_at_path(list_view(roots@), path@) is None,
        },
{
    if path.len() == 0 {
        return None;
    }
    let mut level: &'a [StructNode] = roots;
    let mut k: usize = 0;
    assert(path@.skip(0) =~= path@);
    loop
        invariant
            k < path.len(),
            node_at_path(list_view(roots@), path@) == node_at_path(
                list_view(level@),
                path@.skip(k as int),
            ),
        decreases path.len() - k,
    {
        let idx = path[k];
        proof {
            lemma_list_view(level@);
        }
        if idx >= level.len() {
            return None;
        }
        let node = &level[idx];
        if k + 1 == path.len() {
            return Some(node);
        }
        assert(path@.skip(k as int).drop_first() =~= path@.skip(k + 1));
        level = node.children.as_slice();
        k += 1;
    }
}

/// Navigate mutably into a tree of structure nodes by a path of child
/// indices.  Writing through the returned reference replaces exactly the node
/// that `node_at` finds.
pub fn node_at_mut<'a>(roots: &'a mut [StructNode], path: &[usize]) -> (r: Option<
    &'a mut StructNode,
>)
    ensures
        r is Some ==> node_at_path(list_view(old(roots)@), path@) == Some((*r.unwrap())@)
            && list_view(final(roots)@) == replace_at_path(
            list_view(old(roots)@),
            path@,
            (*final(r.unwrap()))@,
        ),
        r is None ==> node_at_path(list_view(old(roots)@), path@) is None && list_view(
            final(roots)@,
        ) == list_view(old(roots)@),
        r is Some && (*final(r.unwrap()))@ == (*r.unwrap())@ ==> list_view(final(roots)@)
            == list_view(old(roots)@),
    decreases path.len(),
{
    proof {
        lemma_list_view(roots@);
    }
    if path.len() == 0 || path[0] >= roots.len() {
        return None;
    }
    let idx = path[0];
    let (left, right) = roots.split_at_mut(idx);
    assert(has_resolved(left));
    let node: &'a mut StructNode = right.first_mut().unwrap();
    proof {
        lemma_split_update_view(old(roots)@, idx as int);
    }
    if path.len() == 1 {
        proof {
            lemma_replace_with_same(list_view(old(roots)@), path@);
        }
        return Some(node);
    }
    let rest = &path[1..path.len()];
    assert(rest@ =~= path@.drop_first());
    let r = node_at_mut(node.children.as_mut_slice(), rest);
    proof {
        if r is Some {
            lemma_replace_with_same(list_view(old(roots)@), path@);
        }
    }
    r
}

/// Reading the node at a path after replacing it gives back the replacement.
pub proof fn lemma_node_at_after_replace(
    roots: Seq<StructNodeView>,
    path: Seq<usize>,
    v: StructNodeView,
)
    requires
        node_at_path(roots, path) is Some,
    ensures
        node_at_path(replace_at_path(roots, path, v), path) == Some(v),
    decreases path.len(),
{
    if path.len() > 1 {
        let n = roots[path[0] as int];
        lemma_node_at_after_replace(n.children, path.drop_first(), v);
    }
}

/// Putting back the node found at a path leaves the tree as it was: a
/// mutable lookup that writes nothing changes nothing.
pub proof fn lemma_replace_with_same(roots: Seq<StructNodeView>, path: Seq<usize>)
    requires
        node_at_path(roots, path) is Some,
    ensures
        replace_at_path(roots, path, node_at_path(roots, path).unwrap()) == roots,
    decreases path.len(),
{
    let i = path[0] as int;
    if path.len() == 1 {
        assert(roots.update(i, roots[i]) =~= roots);
    } else {
        let n = roots[i];
        lemma_replace_with_same(n.children, path.drop_first());
        let m = StructNodeView {
            title: n.title,
            kind: n.kind,
            tag: n.tag,
            summary: n.summary,
            done: n.done,
            children: replace_at_path(n.children, path.drop_first(), node_at_path(n.children, path.drop_first()).unwrap()),
            linked_objects: n.linked_objects,
            node_links: n.node_links,
        };
        assert(m == n);
        assert(roots.update(i, m) =~= roots);
    }
}

/// The views of a list of texts.
pub open spec fn text_views(v: Seq<String>) -> Seq<Seq<char>> {
    v.map_values(|s: String| s@)
}

fn collect_titles(nodes: &[StructNode], out: &mut Vec<String>)
    ensures
        text_views(final(out)@) == text_views(old(out)@) + titles_list(list_view(nodes@)),
    decreases nodes@,
{
    let ghost start = text_views(out@);
    assert(list_view(nodes@.take(0)) =~= Seq::<StructNodeView>::empty());
    assert(start + titles_list(list_view(nodes@.take(0))) =~= start);
    for i in 0..nodes.len()
        invariant
            start == text_views(old(out)@),
            text_views(out@) == start + titles_list(list_view(nodes@.take(i as int))),
    {
        let n = &nodes[i];
        proof {
            lemma_views_take(nodes@, i as int);
            assert(list_view(nodes@.take(i + 1)).drop_last() == list_view(nodes@.take(i as int)));
        }
        let ghost before = text_views(out@);
        out.push(n.title.clone());
        assert(text_views(out@) =~= before.push(n.title@));
        assert(decreases_to!(nodes@ => nodes@[i as int]));
        assert(decreases_to!(nodes@[i as int] => nodes@[i as int].children));
        collect_titles(n.children.as_slice(), out);
        assert(text_views(out@) =~= start + titles_list(list_view(nodes@.take(i + 1))));
    }
    assert(nodes@.take(nodes@.len() as int) =~= nodes@);
}

/// Collect the title of every node of the tree, depth first, each node before
/// its children.
pub fn all_node_titles(roots: &[StructNode]) -> (r: Vec<String>)
    ensures
        text_views(r@) == titles_list(list_view(roots@)),
{
    let mut out: Vec<String> = Vec::new();
    collect_titles(roots, &mut out);
    assert(text_views(Seq::<String>::empty()) =~= Seq::<Seq<char>>::empty());
    assert(Seq::<Seq<char>>::empty() + titles_list(list_view(roots@)) =~= titles_list(
        list_view(roots@),
    ));
    out
}

proof fn lemma_node_count_prefix(s: Seq<StructNodeView>, i: int)
    requires
        0 <= i <= s.len(),
    ensures
        node_count_list(s.take(i)) <= node_count_list(s),
    decreases s.len(),
{
    if i == s.len() {
        assert(s.take(i) =~= s);
    } else {
        lemma_node_count_prefix(s.drop_last(), i);
        assert(s.drop_last().take(i) =~= s.take(i));
    }
}

/// Count the nodes of a forest, depth first.
pub fn count_nodes(roots: &[StructNode]) -> (r: usize)
    requires
        node_count_list(list_view(roots@)) <= usize::MAX,
    ensures
        r == node_count_list(list_view(roots@)),
        r == titles_list(list_view(roots@)).len(),
    decreases roots@,
{
    let mut sum: usize = 0;
    assert(list_view(roots@.take(0)) =~= Seq::<StructNodeView>::empty());
    for i in 0..roots.len()
        invariant
            node_count_list(list_view(roots@)) <= usize::MAX,
            sum == node_count_list(list_view(roots@.take(i as int))),
    {
        let n = &roots[i];
        proof {
            lemma_views_take(roots@, i as int);
            lemma_list_view(roots@);
            lemma_node_count_prefix(list_view(roots@), i + 1);
            assert(list_view(roots@.take(i + 1)).drop_last() == list_view(roots@.take(i as int)));
            lemma_node_count_prefix(n@.children, n@.children.len() as int);
            assert(decreases_to!(roots@ => roots@[i as int]));
            assert(decreases_to!(roots@[i as int] => roots@[i as int].children));
        }
        let c = count_nodes(n.children.as_slice());
        sum = sum + 1 + c;
    }
    assert(roots@.take(roots@.len() as int) =~= roots@);
    proof {
        lemma_titles_count(list_view(roots@));
    }
    sum
}

/// A list rebuilt from its untouched front and its back with the first node
/// replaced has the value of the list with that node replaced.
pub proof fn lemma_split_update_view(s: Seq<StructNode>, i: int)
    requires
        0 <= i < s.len(),
    ensures
        forall|f: Seq<StructNode>, x: StructNode|
            #![trigger list_view(f), s.subrange(i, s.len() as int).update(0, x)]
            f == s.subrange(0, i) + s.subrange(i, s.len() as int).update(0, x) ==> list_view(f)
                == list_view(s).update(i, x@),
{
    assert forall|f: Seq<StructNode>, x: StructNode|
        #![trigger list_view(f), s.subrange(i, s.len() as int).update(0, x)]
        f == s.subrange(0, i) + s.subrange(i, s.len() as int).update(0, x) implies list_view(f)
        == list_view(s).update(i, x@) by {
        assert(f =~= s.update(i, x));
        lemma_list_view_update(s, i, x);
    }
}

/// The value of an updated list is the updated value of the list.
pub proof fn lemma_list_view_update(s: Seq<StructNode>, i: int, x: StructNode)
    requires
        0 <= i < s.len(),
    ensures
        list_view(s.update(i, x)) == list_view(s).update(i, x@),
{
    lemma_list_view(s);
    lemma_list_view(s.update(i, x));
    assert(list_view(s.update(i, x)) =~= list_view(s).update(i, x@));
}


// ── Milestone / Foreshadow ───────────────────────────────────────────────────

/// A project milestone: a named, describable, completable target.
#[derive(Clone, Debug)]
pub struct Milestone {
    pub name: String,
    pub description: String,
    pub completed: bool,
}

impl Milestone {
    /// An open milestone with the given name and no description.
    pub fn new(name: &str) -> (r: Self)
        ensures
            r.name@ == name@,
            r.description@ == Seq::<char>::empty(),
            !r.completed,
    {
        Milestone { name: name.to_owned(), description: String::new(), completed: false }
    }
}

/// A planted plot element that a later chapter should resolve.
#[derive(Clone, Debug)]
pub struct Foreshadow {
    pub name: String,
    pub description: String,
    pub related_chapters: Vec<String>,
    pub resolved: bool,
}

impl Foreshadow {
    /// An unresolved foreshadow with the given name, no description and no
    /// related chapters.
    pub fn new(name: &str) -> (r: Self)
        ensures
            r.name@ == name@,
            r.description@ == Seq::<char>::empty(),
            r.related_chapters@ == Seq::<String>::empty(),
            !r.resolved,
    {
        Foreshadow {
            name: name.to_owned(),
            description: String::new(),
            related_chapters: Vec::new(),
            resolved: false,
        }
    }
}

// ── AppTheme ─────────────────────────────────────────────────────────────────

/// UI colour theme preference.
#[derive(Clone, Copy, Debug, PartialEq, Eq, Structural)]
pub enum AppTheme {
    Dark,
    Light,
}

impl Default for AppTheme {
    fn default() -> (r: Self)
        ensures
            r == AppTheme::Dark,
    {
        AppTheme::Dark
    }
}

impl AppTheme {
    pub fn label(self) -> (r: &'static str)
        ensures
            r@ == match self {
                AppTheme::Dark => "暗色"@,
                AppTheme::Light => "亮色"@,
            },
    {
        match self {
            AppTheme::Dark => "暗色",
            AppTheme::Light => "亮色",
        }
    }

    /// Both themes, dark first.
    pub fn all() -> (r: &'static [AppTheme])
        ensures
            r@ == seq![AppTheme::Dark, AppTheme::Light],
    {
        let r: &'static [AppTheme] = &[AppTheme::Dark, AppTheme::Light];
        assert(r@ =~= seq![AppTheme::Dark, AppTheme::Light]);
        r
    }
}

// ── Settings defaults ────────────────────────────────────────────────────────

/// Default for boolean settings that are on unless turned off.
pub fn default_true() -> (r: bool)
    ensures
        r,
{
    true
}

/// Default number of spaces a Tab inserts.
pub fn default_tab_size() -> (r: u8)
    ensures
        r == 2,
{
    2
}

/// Default auto-save interval in seconds.
pub fn default_auto_save_interval() -> (r: u32)
    ensures
        r == 60,
{
    60
}

/// Default daily writing goal in words.
pub fn default_daily_word_goal() -> (r: u32)
    ensures
        r == 1000,
{
    1000
}

// ── LLM history ──────────────────────────────────────────────────────────────

/// A single persisted LLM interaction (prompt + response).
#[derive(Clone, Debug)]
pub struct LlmHistoryEntry {
    /// Entry ID (1-based), unique within a history.
    pub id: u64,
    /// Unix timestamp in seconds when the response was received.
    pub timestamp: u64,
    /// Grouping key of the session.
    pub session_key: String,
    pub prompt: String,
    pub response: String,
    /// Model name / path used for this request.
    pub model: String,
}

/// All persisted LLM history of a project.
#[derive(Debug)]
pub struct LlmHistory {
    pub entries: Vec<LlmHistoryEntry>,
    /// Counter used to allocate entry IDs; kept so that IDs stay unique even
    /// after entries are deleted.
    pub next_id: u64,
}

/// The largest entry ID of a history (0 when it is empty).
pub open spec fn max_entry_id(entries: Seq<LlmHistoryEntry>) -> u64
    decreases entries.len(),
{
    if entries.len() == 0 {
        0
    } else {
        let m = max_entry_id(entries.drop_last());
        if entries.last().id > m {
            entries.last().id
        } else {
            m
        }
    }
}

/// The largest entry ID bounds every entry ID.
pub proof fn lemma_max_entry_id(entries: Seq<LlmHistoryEntry>)
    ensures
        forall|i: int| 0 <= i < entries.len() ==> #[trigger] entries[i].id <= max_entry_id(entries),
    decreases entries.len(),
{
    if entries.len() > 0 {
        lemma_max_entry_id(entries.drop_last());
        assert forall|i: int| 0 <= i < entries.len() implies #[trigger] entries[i].id
            <= max_entry_id(entries) by {
            if i < entries.len() - 1 {
                assert(entries[i] == entries.drop_last()[i]);
            }
        }
    }
}

/// Once the counter is repaired, the next allocated ID differs from every
/// existing entry's ID.
pub proof fn lemma_repaired_next_id_is_fresh(h: &LlmHistory)
    requires
        h.next_id >= max_entry_id(h.entries@),
        h.next_id < u64::MAX,
    ensures
        forall|i: int| 0 <= i < h.entries@.len() ==> #[trigger] h.entries@[i].id != h.next_id + 1,
{
    lemma_max_entry_id(h.entries@);
}

impl Default for LlmHistory {
    fn default() -> (r: Self)
        ensures
            r.entries@.len() == 0,
            r.next_id == 0,
    {
        LlmHistory { entries: Vec::new(), next_id: 0 }
    }
}

impl LlmHistory {
    /// Allocate the next unique entry ID and advance the counter.
    pub fn alloc_id(&mut self) -> (r: u64)
        requires
            old(self).next_id < u64::MAX,
        ensures
            r == old(self).next_id + 1,
            final(self).next_id == r,
            final(self).entries@ == old(self).entries@,
    {
        self.next_id = self.next_id + 1;
        self.next_id
    }

    /// The largest ID among the entries (0 when there are none).
    pub fn max_id(&self) -> (r: u64)
        ensures
            r == max_entry_id(self.entries@),
    {
        let mut m: u64 = 0;
        for i in 0..self.entries.len()
            invariant
                m == max_entry_id(self.entries@.take(i as int)),
        {
            assert(self.entries@.take(i + 1).drop_last() =~= self.entries@.take(i as int));
            if self.entries[i].id > m {
                m = self.entries[i].id;
            }
        }
        assert(self.entries@.take(self.entries.len() as int) =~= self.entries@);
        m
    }

    /// Raise the counter to the largest existing entry ID, for histories
    /// written before the counter existed, so that new IDs do not collide.
    pub fn repair_next_id(&mut self)
        ensures
            final(self).entries@ == old(self).entries@,
            final(self).next_id == if old(self).next_id < max_entry_id(old(self).entries@) {
                max_entry_id(old(self).entries@)
            } else {
                old(self).next_id
            },
    {
        let m = self.max_id();
        if self.next_id < m {
            self.next_id = m;
        }
    }
}

// ── Search results ───────────────────────────────────────────────────────────

/// A line of a project file that matches a full-text search.
#[derive(Clone, Debug)]
pub struct SearchResult {
    pub file_path: String,
    /// 1-based line number.
    pub line_no: usize,
    pub line: String,
}

// ── View mode toggles and panels ─────────────────────────────────────────────

/// Toggle between list and card views in the Objects panel.
#[derive(Clone, Copy, Debug, PartialEq, Eq, Structural)]
pub enum ObjectViewMode {
    List,
    Card,
}

/// Toggle between tree and timeline views in the Structure panel.
#[derive(Clone, Copy, Debug, PartialEq, Eq, Structural)]
pub enum StructViewMode {
    Tree,
    Timeline,
}

/// Toggle between the file system and the chapter tree in the Novel panel.
#[derive(Clone, Copy, Debug, PartialEq, Eq, Structural)]
pub enum FileTreeMode {
    Files,
    Chapters,
}

/// The main panels of the workbench.
#[derive(Clone, Copy, Debug, PartialEq, Eq, Structural)]
pub enum Panel {
    Novel,
    Objects,
    Structure,
    Llm,
}

impl Panel {
    pub fn icon(self) -> (r: &'static str)
        ensures
            r@ == match self {
                Panel::Novel => "📝"@,
                Panel::Objects => "🌐"@,
                Panel::Structure => "纲"@,
                Panel::Llm => "智"@,
            },
    {
        match self {
            Panel::Novel => "📝",
            Panel::Objects => "🌐",
            Panel::Structure => "纲",
            Panel::Llm => "智",
        }
    }

    pub fn label(self) -> (r: &'static str)
        ensures
            r@ == match self {
                Panel::Novel => "小说编辑"@,
                Panel::Objects => "世界对象"@,
                Panel::Structure => "章节结构"@,
                Panel::Llm => "LLM辅助"@,
            },
    {
        match self {
            Panel::Novel => "小说编辑",
            Panel::Objects => "世界对象",
            Panel::Structure => "章节结构",
            Panel::Llm => "LLM辅助",
        }
    }
}

} // verus!
