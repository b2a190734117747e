//! The executable tokenizer: the atom types, their constructors, and the
//! character-consuming transitions, each proved equal to the abstract
//! transition function of `crate::model`.

use vstd::prelude::*;

use crate::model::{
    close_group, dispatch, init_state, is_alnum, is_alpha, is_digit, is_final_op, is_op_symbol,
    lemma_scan_snoc, push_child, scan, state_wf, step, unescape, FrameV, LeafV, NodeV, StateV,
};

verus! {

/// The kind of a group: the whole input (`Root`) or one bracket pair.
#[derive(Clone, Copy, PartialEq, Eq, Debug)]
pub enum GroupType {
    Root,
    Curly,
    Square,
    Curved,
}

/// A finished atom, frozen as a child record of its group.
#[derive(PartialEq, Eq, Debug)]
pub enum Node {
    Group { kind: GroupType, children: Vec<Node> },
    Identifier { text: Vec<char> },
    StringLiteral { text: Vec<char> },
    IntegerLiteral { value: i64 },
    NumericLiteral { base: i64, frac: Vec<u8> },
    Operator { text: Vec<char> },
}

/// The abstract value of a finished atom.
pub open spec fn node_view(n: Node) -> NodeV
    decreases n,
{
    match n {
        Node::Group { kind, children } => NodeV::Group {
            kind,
            children: nodes_view(children@),
        },
        Node::Identifier { text } => NodeV::Identifier { text: text@ },
        Node::StringLiteral { text } => NodeV::StringLiteral { text: text@ },
        Node::IntegerLiteral { value } => NodeV::IntegerLiteral { value },
        Node::NumericLiteral { base, frac } => NodeV::NumericLiteral { base, frac: frac@ },
        Node::Operator { text } => NodeV::Operator { text: text@ },
    }
}

/// The abstract value of a child list, element by element.
pub open spec fn nodes_view(ns: Seq<Node>) -> Seq<NodeV>
    decreases ns,
{
    if ns.len() == 0 {
        Seq::empty()
    } else {
        nodes_view(ns.subrange(0, ns.len() - 1)).push(node_view(ns.last()))
    }
}

impl View for Node {
    type V = NodeV;

    open spec fn view(&self) -> NodeV {
        node_view(*self)
    }
}

/// Appending one finished atom appends its abstract value.
pub proof fn lemma_nodes_view_push(ns: Seq<Node>, n: Node)
    ensures
        nodes_view(ns.push(n)) == nodes_view(ns).push(node_view(n)),
{
    assert(ns.push(n).subrange(0, ns.push(n).len() - 1) =~= ns);
    assert(ns.push(n).last() == n);
}

// ---------------------------------------------------------------------------
// Group
// ---------------------------------------------------------------------------

/// A container atom.  While an atom nested inside it is active, the group is
/// owned by that atom (the ownership-inversion discipline): the chain of
/// `parent` links from the active atom is the whole stack of open groups.
pub struct Group {
    pub parent: Option<Box<Group>>,
    pub children: Vec<Node>,
    pub group_type: GroupType,
}

/// The frame a group contributes to the abstract stack of open groups.
pub open spec fn group_own_frame(g: Group) -> FrameV {
    FrameV { kind: g.group_type, children: nodes_view(g.children@) }
}

/// The abstract stack of open groups: the chain of parents, root first,
/// ending in the group itself.
pub open spec fn group_frames(g: Group) -> Seq<FrameV>
    decreases g,
{
    match g.parent {
        Option::None => seq![group_own_frame(g)],
        Option::Some(p) => group_frames(*p).push(group_own_frame(g)),
    }
}

/// Well-formedness: the chain of parents ends at a root group, and only
/// the end of the chain is a root group.
pub open spec fn group_wf(g: Group) -> bool
    decreases g,
{
    match g.parent {
        Option::None => g.group_type == GroupType::Root,
        Option::Some(p) => g.group_type != GroupType::Root && group_wf(*p),
    }
}

/// A well-formed group abstracts to a well-formed frame stack whose top
/// frame is the group's own.
pub proof fn lemma_group_frames_wf(g: Group)
    requires
        group_wf(g),
    ensures
        state_wf(StateV { frames: group_frames(g), leaf: LeafV::NoLeaf }),
        group_frames(g).len() >= 1,
        group_frames(g).last() == group_own_frame(g),
    decreases g,
{
    match g.parent {
        Option::None => {},
        Option::Some(p) => {
            lemma_group_frames_wf(*p);
        },
    }
}

// ---------------------------------------------------------------------------
// The atom capability set
// ---------------------------------------------------------------------------

/// Anything that can consume one character and produce the next active atom.
/// `abs` is the abstract tokenizer state an active atom stands for; every
/// transition is proved equal to the abstract `step` on it.
pub trait Atom: Sized {
    /// Structural well-formedness of the atom and its chain of parents.
    spec fn wf(&self) -> bool;

    /// The abstract tokenizer state this active atom stands for.
    spec fn abs(&self) -> StateV;

    /// The characters of the atom's human-readable kind name.
    spec fn name_spec(&self) -> Seq<char>;

    /// Consume one character and hand back the next active atom.
    fn read_char(self, c: char) -> (r: ActiveAtom)
        requires
            self.wf(),
        ensures
            active_wf(r),
            active_abs(r) == step(self.abs(), c),
    ;

    /// A human-readable name for the atom's kind.
    fn name(self) -> (s: String)
        ensures
            s@ == self.name_spec(),
    ;
}

/// The active atom: exactly one of these holds the cursor at any point of
/// the scan, and it owns the whole chain of open groups above it.
pub enum ActiveAtom {
    Group(Group),
    Identifier(Identifier),
    StringLiteral(StringLiteral),
    IntegerLiteral(IntegerLiteral),
    NumericLiteral(NumericLiteral),
    Operator(Operator),
}

/// Well-formedness of the active atom: its chain of owned groups ends at
/// the root group, and no other group in the chain is a root.
pub open spec fn active_wf(a: ActiveAtom) -> bool {
    match a {
        ActiveAtom::Group(g) => group_wf(g),
        ActiveAtom::Identifier(x) => group_wf(*x.parent),
        ActiveAtom::StringLiteral(x) => group_wf(*x.parent),
        ActiveAtom::IntegerLiteral(x) => group_wf(*x.parent),
        ActiveAtom::NumericLiteral(x) => group_wf(*x.parent),
        ActiveAtom::Operator(x) => group_wf(*x.parent),
    }
}

/// The abstract tokenizer state the active atom stands for: the stack of
/// open group frames, and the leaf accumulator if a leaf is active.
pub open spec fn active_abs(a: ActiveAtom) -> StateV {
    match a {
        ActiveAtom::Group(g) => StateV { frames: group_frames(g), leaf: LeafV::NoLeaf },
        ActiveAtom::Identifier(x) => StateV {
            frames: group_frames(*x.parent),
            leaf: LeafV::Ident { text: x.value@ },
        },
        ActiveAtom::StringLiteral(x) => StateV {
            frames: group_frames(*x.parent),
            leaf: LeafV::Str { text: x.value@, escaped: x.escaped },
        },
        ActiveAtom::IntegerLiteral(x) => StateV {
            frames: group_frames(*x.parent),
            leaf: LeafV::Int { value: x.value },
        },
        ActiveAtom::NumericLiteral(x) => StateV {
            frames: group_frames(*x.parent),
            leaf: LeafV::Num { base: x.base, frac: x.frac@ },
        },
        ActiveAtom::Operator(x) => StateV {
            frames: group_frames(*x.parent),
            leaf: LeafV::Op { text: x.value@ },
        },
    }
}

/// Hand the finished atom `child` to its owning group: the group takes the
/// child onto the end of its child list and becomes the active atom again.
pub fn take_parent_and_add_child(parent: Box<Group>, child: Node) -> (r: Box<Group>)
    requires
        group_wf(*parent),
    ensures
        group_wf(*r),
        group_frames(*r) == push_child(group_frames(*parent), node_view(child)),
        r.group_type == parent.group_type,
{
    let mut g: Group = *parent;
    proof {
        lemma_group_frames_wf(g);
        lemma_nodes_view_push(g.children@, child);
    }
    let ghost g0: Group = g;
    g.children.push(child);
    proof {
        assert(group_own_frame(g) == FrameV {
            kind: g0.group_type,
            children: nodes_view(g0.children@).push(node_view(child)),
        });
        let fs0 = group_frames(g0);
        let fs1 = group_frames(g);
        match g0.parent {
            Option::None => {
                assert(fs1 =~= push_child(fs0, node_view(child)));
            },
            Option::Some(p) => {
                assert(fs1 =~= push_child(fs0, node_view(child)));
            },
        }
    }
    Box::new(g)
}

// ---------------------------------------------------------------------------
// Character classification
// ---------------------------------------------------------------------------

/// Whether `c` may start an identifier.
pub fn is_alpha_char(c: char) -> (r: bool)
    ensures
        r == is_alpha(c),
{
    let u: u32 = c as u32;
    (97 <= u && u <= 122) || (65 <= u && u <= 90)
}

/// Whether `c` is an ASCII decimal digit.
pub fn is_digit_char(c: char) -> (r: bool)
    ensures
        r == is_digit(c),
{
    let u: u32 = c as u32;
    48 <= u && u <= 57
}

/// Whether `c` may extend an identifier.
pub fn is_alnum_char(c: char) -> (r: bool)
    ensures
        r == is_alnum(c),
{
    is_alpha_char(c) || is_digit_char(c)
}

/// Whether `c` belongs to the operator-symbol alphabet.
pub fn is_operator_symbol(c: char) -> (r: bool)
    ensures
        r == is_op_symbol(c),
{
    c == '#' || c == '@' || c == '!' || c == '%' || c == '^' || c == '&' || c == '*' || c == '-'
        || c == '_' || c == '+' || c == '>' || c == '<' || c == '=' || c == '/' || c == '\\'
        || c == '~' || c == '`' || c == ',' || c == '.' || c == '|' || c == '?' || c == ':'
}

/// Whether `c` is the terminal operator character.
pub fn is_final_operator(c: char) -> (r: bool)
    ensures
        r == is_final_op(c),
{
    c == ';'
}

// ---------------------------------------------------------------------------
// Group: construction, dispatch and closing
// ---------------------------------------------------------------------------

impl Group {
    /// A fresh group of the given kind with no children yet; only the root
    /// group is created without a parent.
    pub fn new(group_type: GroupType, parent: Option<Box<Group>>) -> (r: Group)
        ensures
            r.group_type == group_type,
            r.parent == parent,
            r.children@ =~= Seq::<Node>::empty(),
    {
        Group { parent, children: Vec::new(), group_type }
    }

    /// Default dispatch, shared by every group kind: open a sub-group,
    /// start a leaf and feed it the character, or drop the character.
    pub fn read_default(self, c: char) -> (r: ActiveAtom)
        requires
            group_wf(self),
        ensures
            active_wf(r),
            active_abs(r) == dispatch(group_frames(self), c),
    {
        proof {
            lemma_group_frames_wf(self);
        }
        if c == '{' {
            let g = Group::new(GroupType::Curly, Option::Some(Box::new(self)));
            proof {
                assert(group_frames(g) =~= group_frames(self).push(
                    FrameV { kind: GroupType::Curly, children: Seq::empty() },
                ));
            }
            ActiveAtom::Group(g)
        } else if c == '(' {
            let g = Group::new(GroupType::Curved, Option::Some(Box::new(self)));
            proof {
                assert(group_frames(g) =~= group_frames(self).push(
                    FrameV { kind: GroupType::Curved, children: Seq::empty() },
                ));
            }
            ActiveAtom::Group(g)
        } else if c == '[' {
            let g = Group::new(GroupType::Square, Option::Some(Box::new(self)));
            proof {
                assert(group_frames(g) =~= group_frames(self).push(
                    FrameV { kind: GroupType::Square, children: Seq::empty() },
                ));
            }
            ActiveAtom::Group(g)
        } else if c == '"' {
            ActiveAtom::StringLiteral(StringLiteral::new(Box::new(self)))
        } else if is_alpha_char(c) {
            // a fresh identifier immediately fed its first character
            let mut a = Identifier::new(Box::new(self));
            a.value.push(c);
            proof {
                assert(a.value@ =~= seq![c]);
            }
            ActiveAtom::Identifier(a)
        } else if is_digit_char(c) {
            // a fresh integer literal immediately fed its first digit
            let mut a = IntegerLiteral::new(Box::new(self));
            let u: u32 = c as u32;
            a.value = (u - 48) as i64;
            ActiveAtom::IntegerLiteral(a)
        } else if is_final_operator(c) {
            // the terminal operator alone is already a complete token
            let mut v: Vec<char> = Vec::new();
            v.push(c);
            proof {
                assert(v@ =~= seq![c]);
            }
            let g = take_parent_and_add_child(Box::new(self), Node::Operator { text: v });
            ActiveAtom::Group(*g)
        } else if is_operator_symbol(c) {
            // a fresh operator immediately fed its first symbol
            let mut a = Operator::new(Box::new(self));
            a.value.push(c);
            proof {
                assert(a.value@ =~= seq![c]);
            }
            ActiveAtom::Operator(a)
        } else {
            ActiveAtom::Group(self)
        }
    }
}

/// Close the active (non-root) group: detach it from its parent, freeze it
/// as a child of the parent, and make the parent active again.
fn close_active_group(g: Group) -> (r: ActiveAtom)
    requires
        group_wf(g),
        g.group_type != GroupType::Root,
    ensures
        active_wf(r),
        active_abs(r) == (StateV { frames: close_group(group_frames(g)), leaf: LeafV::NoLeaf }),
{
    proof {
        lemma_group_frames_wf(g);
    }
    let Group { parent, children, group_type } = g;
    match parent {
        Option::Some(p) => {
            proof {
                assert(group_frames(g).drop_last() =~= group_frames(*p));
            }
            let gg = take_parent_and_add_child(p, Node::Group { kind: group_type, children });
            ActiveAtom::Group(*gg)
        },
        Option::None => {
            // a well-formed non-root group always has a parent
            vstd::pervasive::unreached()
        },
    }
}

impl Atom for Group {
    open spec fn wf(&self) -> bool {
        group_wf(*self)
    }

    open spec fn abs(&self) -> StateV {
        StateV { frames: group_frames(*self), leaf: LeafV::NoLeaf }
    }

    open spec fn name_spec(&self) -> Seq<char> {
        match self.group_type {
            GroupType::Root => "Group Root"@,
            GroupType::Curly => "Group Curly"@,
            GroupType::Square => "Group Square"@,
            GroupType::Curved => "Group Curved"@,
        }
    }

    fn read_char(self, c: char) -> (r: ActiveAtom) {
        proof {
            lemma_group_frames_wf(self);
        }
        match self.group_type {
            GroupType::Root => self.read_default(c),
            GroupType::Curly => {
                if c == '}' {
                    close_active_group(self)
                } else {
                    self.read_default(c)
                }
            },
            GroupType::Square => {
                if c == ']' {
                    close_active_group(self)
                } else {
                    self.read_default(c)
                }
            },
            GroupType::Curved => {
                if c == ')' {
                    close_active_group(self)
                } else {
                    self.read_default(c)
                }
            },
        }
    }

    fn name(self) -> (s: String) {
        match self.group_type {
            GroupType::Root => "Group Root".to_owned(),
            GroupType::Curly => "Group Curly".to_owned(),
            GroupType::Square => "Group Square".to_owned(),
            GroupType::Curved => "Group Curved".to_owned(),
        }
    }
}

// ---------------------------------------------------------------------------
// Identifier
// ---------------------------------------------------------------------------

/// A leaf accumulating an identifier: `[A-Za-z][A-Za-z0-9]*`.
pub struct Identifier {
    pub parent: Box<Group>,
    pub value: Vec<char>,
}

impl Identifier {
    /// A fresh, empty identifier owned by `parent`.
    pub fn new(parent: Box<Group>) -> (r: Identifier)
        ensures
            r.parent == parent,
            r.value@ =~= Seq::<char>::empty(),
    {
        Identifier { parent, value: Vec::new() }
    }
}

impl Atom for Identifier {
    open spec fn wf(&self) -> bool {
        group_wf(*self.parent)
    }

    open spec fn abs(&self) -> StateV {
        StateV {
            frames: group_frames(*self.parent),
            leaf: LeafV::Ident { text: self.value@ },
        }
    }

    open spec fn name_spec(&self) -> Seq<char> {
        "Identifier"@
    }

    fn read_char(self, c: char) -> (r: ActiveAtom) {
        let Identifier { parent, mut value } = self;
        if is_alnum_char(c) {
            value.push(c);
            ActiveAtom::Identifier(Identifier { parent, value })
        } else {
            // the terminator is not consumed: finalize and redispatch
            let g = take_parent_and_add_child(parent, Node::Identifier { text: value });
            let g2: Group = *g;
            g2.read_char(c)
        }
    }

    fn name(self) -> (s: String) {
        "Identifier".to_owned()
    }
}

// ---------------------------------------------------------------------------
// StringLiteral
// ---------------------------------------------------------------------------

/// A leaf accumulating a quoted string, with an escape flag for the
/// character after a backslash.
pub struct StringLiteral {
    pub parent: Box<Group>,
    pub value: Vec<char>,
    pub escaped: bool,
}

impl StringLiteral {
    /// A fresh, empty string literal owned by `parent`.
    pub fn new(parent: Box<Group>) -> (r: StringLiteral)
        ensures
            r.parent == parent,
            r.value@ =~= Seq::<char>::empty(),
            r.escaped == false,
    {
        StringLiteral { parent, value: Vec::new(), escaped: false }
    }
}

impl Atom for StringLiteral {
    open spec fn wf(&self) -> bool {
        group_wf(*self.parent)
    }

    open spec fn abs(&self) -> StateV {
        StateV {
            frames: group_frames(*self.parent),
            leaf: LeafV::Str { text: self.value@, escaped: self.escaped },
        }
    }

    open spec fn name_spec(&self) -> Seq<char> {
        "String Literal"@
    }

    fn read_char(self, c: char) -> (r: ActiveAtom) {
        let StringLiteral { parent, mut value, escaped } = self;
        if escaped {
            let mapped: char = match c {
                'n' => '\n',
                'r' => '\r',
                't' => '\t',
                '\\' => '\\',
                '\"' => '\"',
                '\'' => '\'',
                _ => c,
            };
            proof {
                assert(mapped == unescape(c));
            }
            value.push(mapped);
            ActiveAtom::StringLiteral(StringLiteral { parent, value, escaped: false })
        } else if c == '\\' {
            // the backslash itself is not appended
            ActiveAtom::StringLiteral(StringLiteral { parent, value, escaped: true })
        } else if c == '"' {
            // the closing quote is consumed, not appended, not redispatched
            let g = take_parent_and_add_child(parent, Node::StringLiteral { text: value });
            ActiveAtom::Group(*g)
        } else {
            value.push(c);
            ActiveAtom::StringLiteral(StringLiteral { parent, value, escaped })
        }
    }

    fn name(self) -> (s: String) {
        "String Literal".to_owned()
    }
}

// ---------------------------------------------------------------------------
// IntegerLiteral
// ---------------------------------------------------------------------------

/// A leaf accumulating a decimal integer into a 64-bit value; the
/// accumulation wraps on overflow, with no detection.
pub struct IntegerLiteral {
    pub parent: Box<Group>,
    pub value: i64,
}

impl IntegerLiteral {
    /// A fresh integer literal owned by `parent`, starting from zero.
    pub fn new(parent: Box<Group>) -> (r: IntegerLiteral)
        ensures
            r.parent == parent,
            r.value == 0i64,
    {
        IntegerLiteral { parent, value: 0 }
    }
}

impl Atom for IntegerLiteral {
    open spec fn wf(&self) -> bool {
        group_wf(*self.parent)
    }

    open spec fn abs(&self) -> StateV {
        StateV {
            frames: group_frames(*self.parent),
            leaf: LeafV::Int { value: self.value },
        }
    }

    open spec fn name_spec(&self) -> Seq<char> {
        "Integer Literal"@
    }

    fn read_char(self, c: char) -> (r: ActiveAtom) {
        let IntegerLiteral { parent, value } = self;
        if is_digit_char(c) {
            let d: i64 = ((c as u32) - 48) as i64;
            let v2: i64 = value.wrapping_mul(10).wrapping_add(d);
            ActiveAtom::IntegerLiteral(IntegerLiteral { parent, value: v2 })
        } else if c == '.' {
            // promote to a fractional numeric literal; the dot is consumed
            ActiveAtom::NumericLiteral(NumericLiteral::new(parent, value))
        } else {
            let g = take_parent_and_add_child(parent, Node::IntegerLiteral { value });
            let g2: Group = *g;
            g2.read_char(c)
        }
    }

    fn name(self) -> (s: String) {
        "Integer Literal".to_owned()
    }
}

// ---------------------------------------------------------------------------
// NumericLiteral
// ---------------------------------------------------------------------------

/// A leaf accumulating a fractional number, created only by an integer
/// literal meeting a dot.  The value is kept exactly: the integer base and
/// the fractional digits in order, so the number it stands for is
/// `base + sum of frac[k] / 10^(k+1)`.
pub struct NumericLiteral {
    pub parent: Box<Group>,
    pub base: i64,
    pub frac: Vec<u8>,
}

impl NumericLiteral {
    /// A fresh fractional literal owned by `parent`, seeded with the
    /// integer value read so far and no fractional digits yet.
    pub fn new(parent: Box<Group>, initial_value: i64) -> (r: NumericLiteral)
        ensures
            r.parent == parent,
            r.base == initial_value,
            r.frac@ =~= Seq::<u8>::empty(),
    {
        NumericLiteral { parent, base: initial_value, frac: Vec::new() }
    }
}

impl Atom for NumericLiteral {
    open spec fn wf(&self) -> bool {
        group_wf(*self.parent)
    }

    open spec fn abs(&self) -> StateV {
        StateV {
            frames: group_frames(*self.parent),
            leaf: LeafV::Num { base: self.base, frac: self.frac@ },
        }
    }

    open spec fn name_spec(&self) -> Seq<char> {
        "Numeric Literal"@
    }

    fn read_char(self, c: char) -> (r: ActiveAtom) {
        let NumericLiteral { parent, base, mut frac } = self;
        if is_digit_char(c) {
            let d: u8 = ((c as u32) - 48) as u8;
            frac.push(d);
            ActiveAtom::NumericLiteral(NumericLiteral { parent, base, frac })
        } else {
            let g = take_parent_and_add_child(parent, Node::NumericLiteral { base, frac });
            let g2: Group = *g;
            g2.read_char(c)
        }
    }

    fn name(self) -> (s: String) {
        "Numeric Literal".to_owned()
    }
}

// ---------------------------------------------------------------------------
// Operator
// ---------------------------------------------------------------------------

/// A leaf accumulating a run of operator-symbol characters; the terminal
/// operator character ends the token and is consumed into it.
pub struct Operator {
    pub parent: Box<Group>,
    pub value: Vec<char>,
}

impl Operator {
    /// A fresh, empty operator owned by `parent`.
    pub fn new(parent: Box<Group>) -> (r: Operator)
        ensures
            r.parent == parent,
            r.value@ =~= Seq::<char>::empty(),
    {
        Operator { parent, value: Vec::new() }
    }
}

impl Atom for Operator {
    open spec fn wf(&self) -> bool {
        group_wf(*self.parent)
    }

    open spec fn abs(&self) -> StateV {
        StateV {
            frames: group_frames(*self.parent),
            leaf: LeafV::Op { text: self.value@ },
        }
    }

    open spec fn name_spec(&self) -> Seq<char> {
        "Operator"@
    }

    fn read_char(self, c: char) -> (r: ActiveAtom) {
        let Operator { parent, mut value } = self;
        if is_operator_symbol(c) {
            value.push(c);
            ActiveAtom::Operator(Operator { parent, value })
        } else if is_final_operator(c) {
            // the terminator is consumed into the token, unlike the others
            value.push(c);
            let g = take_parent_and_add_child(parent, Node::Operator { text: value });
            ActiveAtom::Group(*g)
        } else {
            let g = take_parent_and_add_child(parent, Node::Operator { text: value });
            let g2: Group = *g;
            g2.read_char(c)
        }
    }

    fn name(self) -> (s: String) {
        "Operator".to_owned()
    }
}

// ---------------------------------------------------------------------------
// The active atom
// ---------------------------------------------------------------------------

impl Atom for ActiveAtom {
    open spec fn wf(&self) -> bool {
        active_wf(*self)
    }

    open spec fn abs(&self) -> StateV {
        active_abs(*self)
    }

    open spec fn name_spec(&self) -> Seq<char> {
        match self {
            ActiveAtom::Group(a) => a.name_spec(),
            ActiveAtom::Identifier(a) => a.name_spec(),
            ActiveAtom::StringLiteral(a) => a.name_spec(),
            ActiveAtom::IntegerLiteral(a) => a.name_spec(),
            ActiveAtom::NumericLiteral(a) => a.name_spec(),
            ActiveAtom::Operator(a) => a.name_spec(),
        }
    }

    fn read_char(self, c: char) -> (r: ActiveAtom) {
        match self {
            ActiveAtom::Group(a) => a.read_char(c),
            ActiveAtom::Identifier(a) => a.read_char(c),
            ActiveAtom::StringLiteral(a) => a.read_char(c),
            ActiveAtom::IntegerLiteral(a) => a.read_char(c),
            ActiveAtom::NumericLiteral(a) => a.read_char(c),
            ActiveAtom::Operator(a) => a.read_char(c),
        }
    }

    fn name(self) -> (s: String) {
        match self {
            ActiveAtom::Group(a) => a.name(),
            ActiveAtom::Identifier(a) => a.name(),
            ActiveAtom::StringLiteral(a) => a.name(),
            ActiveAtom::IntegerLiteral(a) => a.name(),
            ActiveAtom::NumericLiteral(a) => a.name(),
            ActiveAtom::Operator(a) => a.name(),
        }
    }
}

// ---------------------------------------------------------------------------
// Driving a whole character stream
// ---------------------------------------------------------------------------

/// Feed a whole character sequence through a fresh root group, one character
/// at a time, and hand back whatever atom is active when the input ends.
pub fn tokenize(input: &Vec<char>) -> (r: ActiveAtom)
    ensures
        active_wf(r),
        active_abs(r) == scan(init_state(), input@),
{
    let root = Group::new(GroupType::Root, Option::None);
    let mut cur = ActiveAtom::Group(root);
    proof {
        assert(active_abs(cur) =~~= init_state());
    }
    let n: usize = input.len();
    let mut i: usize = 0;
    while i < n
        invariant
            n == input.len(),
            i <= n,
            active_wf(cur),
            active_abs(cur) == scan(init_state(), input@.subrange(0, i as int)),
        decreases n - i,
    {
        let c: char = input[i];
        proof {
            assert(input@.subrange(0, i + 1 as int) =~= input@.subrange(0, i as int).push(
                input@[i as int],
            ));
            lemma_scan_snoc(init_state(), input@.subrange(0, i as int), input@[i as int]);
        }
        cur = cur.read_char(c);
        i = i + 1;
    }
    proof {
        assert(input@.subrange(0, n as int) =~= input@);
    }
    cur
}

} // verus!
