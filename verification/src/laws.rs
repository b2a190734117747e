//! General facts about the abstract transition function: stepping keeps a
//! state well formed, a group's finished children are only ever appended to
//! (never removed or reordered), and scanning the bracket rendering of any
//! group-only tree rebuilds exactly that tree.

use vstd::prelude::*;

use crate::atom::GroupType;
use crate::model::{
    close_char, close_group, dispatch, frames_wf, group_step, init_state, is_closer, is_final_op,
    lemma_scan_concat, lemma_scan_one, open_char, push_child, scan, state_wf, step, FrameV, LeafV,
    NodeV, StateV,
};

verus! {

// ---------------------------------------------------------------------------
// Stepping keeps a state well formed
// ---------------------------------------------------------------------------

/// Appending a child to the innermost group changes no frame kind and no
/// other frame's children.
proof fn lemma_push_child_facts(fs: Seq<FrameV>, n: NodeV)
    requires
        fs.len() >= 1,
    ensures
        push_child(fs, n).len() == fs.len(),
        forall|i: int| 0 <= i < fs.len() ==> (#[trigger] push_child(fs, n)[i].kind) == fs[i].kind,
        forall|i: int|
            0 <= i < fs.len() - 1 ==> (#[trigger] push_child(fs, n)[i].children) == fs[i].children,
        push_child(fs, n)[fs.len() - 1].children == fs[fs.len() - 1].children.push(n),
        frames_wf(fs) ==> frames_wf(push_child(fs, n)),
{
}

/// A group consuming one character keeps the frame stack well formed.
proof fn lemma_group_step_wf(fs: Seq<FrameV>, c: char)
    requires
        frames_wf(fs),
    ensures
        state_wf(group_step(fs, c)),
{
    if is_closer(fs.last().kind, c) {
        // the closing frame is not the root, so the root frame stays
        assert(fs.len() >= 2);
        lemma_push_child_facts(
            fs.drop_last(),
            NodeV::Group { kind: fs.last().kind, children: fs.last().children },
        );
    } else {
        if is_final_op(c) {
            lemma_push_child_facts(fs, NodeV::Operator { text: seq![c] });
        }
    }
}

/// One step of the transition function keeps the state well formed.
pub proof fn lemma_step_wf(st: StateV, c: char)
    requires
        state_wf(st),
    ensures
        state_wf(step(st, c)),
{
    lemma_group_step_wf(st.frames, c);
    match st.leaf {
        LeafV::NoLeaf => {},
        LeafV::Ident { text } => {
            lemma_push_child_facts(st.frames, NodeV::Identifier { text });
            lemma_group_step_wf(push_child(st.frames, NodeV::Identifier { text }), c);
        },
        LeafV::Str { text, escaped } => {
            lemma_push_child_facts(st.frames, NodeV::StringLiteral { text });
        },
        LeafV::Int { value } => {
            lemma_push_child_facts(st.frames, NodeV::IntegerLiteral { value });
            lemma_group_step_wf(push_child(st.frames, NodeV::IntegerLiteral { value }), c);
        },
        LeafV::Num { base, frac } => {
            lemma_push_child_facts(st.frames, NodeV::NumericLiteral { base, frac });
            lemma_group_step_wf(push_child(st.frames, NodeV::NumericLiteral { base, frac }), c);
        },
        LeafV::Op { text } => {
            lemma_push_child_facts(st.frames, NodeV::Operator { text });
            lemma_push_child_facts(st.frames, NodeV::Operator { text: text.push(c) });
            lemma_group_step_wf(push_child(st.frames, NodeV::Operator { text }), c);
        },
    }
}

/// Scanning any input keeps the state well formed.
pub proof fn lemma_scan_wf(st: StateV, s: Seq<char>)
    requires
        state_wf(st),
    ensures
        state_wf(scan(st, s)),
    decreases s.len(),
{
    if s.len() > 0 {
        lemma_step_wf(st, s[0]);
        lemma_scan_wf(step(st, s[0]), s.subrange(1, s.len() as int));
    }
}

// ---------------------------------------------------------------------------
// Child order preservation
// ---------------------------------------------------------------------------

/// How one transition may change the open groups that survive it: each keeps
/// its kind, and its child list is only ever extended at the end — children
/// stay in the exact order their source characters appeared, and none is
/// removed or reordered.
pub open spec fn frames_extend(a: Seq<FrameV>, b: Seq<FrameV>) -> bool {
    forall|i: int|
        0 <= i < a.len() && i < b.len() ==> (#[trigger] b[i]).kind == a[i].kind
            && a[i].children.is_prefix_of(b[i].children)
}

/// A sequence is a prefix of itself and of any extension of itself.
proof fn lemma_prefix_refl(s: Seq<NodeV>)
    ensures
        s.is_prefix_of(s),
        forall|n: NodeV| s.is_prefix_of(#[trigger] s.push(n)),
{
    assert(s =~= s.subrange(0, s.len() as int));
    assert forall|n: NodeV| s.is_prefix_of(#[trigger] s.push(n)) by {
        assert(s =~= s.push(n).subrange(0, s.len() as int));
    }
}

/// The prefix order on child lists is transitive.
proof fn lemma_prefix_trans(a: Seq<NodeV>, b: Seq<NodeV>, c: Seq<NodeV>)
    requires
        a.is_prefix_of(b),
        b.is_prefix_of(c),
    ensures
        a.is_prefix_of(c),
{
    assert(a =~= c.subrange(0, a.len() as int));
}

/// Extending extends: `frames_extend` composes, as long as the middle stack
/// is at least as long as the first.
proof fn lemma_extend_trans(a: Seq<FrameV>, b: Seq<FrameV>, c: Seq<FrameV>)
    requires
        frames_extend(a, b),
        frames_extend(b, c),
        a.len() <= b.len(),
    ensures
        frames_extend(a, c),
{
    assert forall|i: int|
        0 <= i < a.len() && i < c.len() implies (#[trigger] c[i]).kind == a[i].kind
        && a[i].children.is_prefix_of(c[i].children) by {
        lemma_prefix_trans(a[i].children, b[i].children, c[i].children);
    }
}

/// Appending a child to the innermost group extends every frame.
proof fn lemma_push_child_extends(fs: Seq<FrameV>, n: NodeV)
    requires
        fs.len() >= 1,
    ensures
        frames_extend(fs, push_child(fs, n)),
{
    lemma_push_child_facts(fs, n);
    assert forall|i: int|
        0 <= i < fs.len() && i < push_child(fs, n).len() implies (#[trigger] push_child(fs, n)[i]).kind
        == fs[i].kind && fs[i].children.is_prefix_of(push_child(fs, n)[i].children) by {
        lemma_prefix_refl(fs[i].children);
    }
}

/// A group consuming one character only extends the surviving frames.
proof fn lemma_group_step_extends(fs: Seq<FrameV>, c: char)
    requires
        frames_wf(fs),
    ensures
        frames_extend(fs, group_step(fs, c).frames),
{
    if is_closer(fs.last().kind, c) {
        assert(fs.len() >= 2);
        let inner = NodeV::Group { kind: fs.last().kind, children: fs.last().children };
        lemma_push_child_facts(fs.drop_last(), inner);
        assert forall|i: int|
            0 <= i < fs.len() && i < close_group(fs).len() implies (#[trigger] close_group(
            fs,
        )[i]).kind == fs[i].kind && fs[i].children.is_prefix_of(close_group(fs)[i].children) by {
            lemma_prefix_refl(fs[i].children);
        }
    } else {
        if is_final_op(c) {
            lemma_push_child_extends(fs, NodeV::Operator { text: seq![c] });
        } else {
            assert forall|i: int|
                0 <= i < fs.len() && i < dispatch(fs, c).frames.len() implies (#[trigger] dispatch(
                fs,
                c,
            ).frames[i]).kind == fs[i].kind && fs[i].children.is_prefix_of(
                dispatch(fs, c).frames[i].children,
            ) by {
                lemma_prefix_refl(fs[i].children);
            }
        }
    }
}

/// One step of the transition function never removes or reorders the
/// children of a surviving group: it only appends.
pub proof fn lemma_step_appends_only(st: StateV, c: char)
    requires
        state_wf(st),
    ensures
        frames_extend(st.frames, step(st, c).frames),
{
    lemma_group_step_extends(st.frames, c);
    let fs = st.frames;
    match st.leaf {
        LeafV::NoLeaf => {},
        LeafV::Ident { text } => {
            lemma_leaf_finalize_extends(fs, NodeV::Identifier { text }, c);
        },
        LeafV::Str { text, escaped } => {
            if !escaped && c == '"' {
                lemma_push_child_extends(fs, NodeV::StringLiteral { text });
            }
        },
        LeafV::Int { value } => {
            lemma_leaf_finalize_extends(fs, NodeV::IntegerLiteral { value }, c);
        },
        LeafV::Num { base, frac } => {
            lemma_leaf_finalize_extends(fs, NodeV::NumericLiteral { base, frac }, c);
        },
        LeafV::Op { text } => {
            if is_final_op(c) {
                lemma_push_child_extends(fs, NodeV::Operator { text: text.push(c) });
            } else {
                lemma_leaf_finalize_extends(fs, NodeV::Operator { text }, c);
            }
        },
    }
}

/// A leaf finalizing into its group and redispatching the character only
/// extends the surviving frames.
proof fn lemma_leaf_finalize_extends(fs: Seq<FrameV>, n: NodeV, c: char)
    requires
        frames_wf(fs),
    ensures
        frames_extend(fs, group_step(push_child(fs, n), c).frames),
{
    lemma_push_child_extends(fs, n);
    lemma_push_child_facts(fs, n);
    lemma_group_step_extends(push_child(fs, n), c);
    lemma_extend_trans(fs, push_child(fs, n), group_step(push_child(fs, n), c).frames);
}

// ---------------------------------------------------------------------------
// Bracket nesting
// ---------------------------------------------------------------------------

/// A finished atom that is a bracket group all the way down: no leaves, no
/// root, only nested `{}`, `[]`, `()` groups.
pub open spec fn brackets_only_node(n: NodeV) -> bool
    decreases n,
{
    match n {
        NodeV::Group { kind, children } => kind != GroupType::Root && brackets_only_seq(children),
        _ => false,
    }
}

/// A forest of bracket-only groups.
pub open spec fn brackets_only_seq(ns: Seq<NodeV>) -> bool
    decreases ns,
{
    if ns.len() == 0 {
        true
    } else {
        brackets_only_node(ns[0]) && brackets_only_seq(ns.subrange(1, ns.len() as int))
    }
}

/// The bracket characters a group-only tree stands for: its opening
/// bracket, its children's characters, its closing bracket.  Over
/// bracket-only forests this rendering ranges over exactly the balanced
/// bracket strings.
pub open spec fn bracket_chars_node(n: NodeV) -> Seq<char>
    decreases n,
{
    match n {
        NodeV::Group { kind, children } => seq![open_char(kind)] + bracket_chars_seq(children)
            + seq![close_char(kind)],
        _ => Seq::empty(),
    }
}

/// The bracket characters of a forest, in order.
pub open spec fn bracket_chars_seq(ns: Seq<NodeV>) -> Seq<char>
    decreases ns,
{
    if ns.len() == 0 {
        Seq::empty()
    } else {
        bracket_chars_node(ns[0]) + bracket_chars_seq(ns.subrange(1, ns.len() as int))
    }
}

/// Scanning the bracket rendering of one group-only tree, with a group
/// active, appends exactly that tree to the active group.
pub proof fn lemma_bracket_node(st: StateV, n: NodeV)
    requires
        state_wf(st),
        st.leaf is NoLeaf,
        brackets_only_node(n),
    ensures
        scan(st, bracket_chars_node(n)) == (StateV {
            frames: push_child(st.frames, n),
            leaf: LeafV::NoLeaf,
        }),
    decreases n,
{
    match n {
        NodeV::Group { kind, children } => {
            let o = open_char(kind);
            let cl = close_char(kind);
            let inner = bracket_chars_seq(children);
            lemma_scan_concat(st, seq![o] + inner, seq![cl]);
            lemma_scan_concat(st, seq![o], inner);
            lemma_scan_one(st, o);
            // the opening bracket closes no group and opens a fresh frame
            assert(!is_closer(st.frames.last().kind, o));
            let st1 = step(st, o);
            assert(st1 == (StateV {
                frames: st.frames.push(FrameV { kind, children: Seq::empty() }),
                leaf: LeafV::NoLeaf,
            }));
            lemma_bracket_seq(st1, children);
            let st2 = scan(st1, inner);
            assert(st1.frames.last() == (FrameV { kind, children: Seq::empty() }));
            assert(st2.frames =~= st.frames.push(FrameV { kind, children })) by {
                assert(Seq::<NodeV>::empty() + children =~= children);
                assert(st1.frames.update(
                    st1.frames.len() - 1,
                    FrameV { kind, children: Seq::<NodeV>::empty() + children },
                ) =~= st.frames.push(FrameV { kind, children }));
            }
            // the closing bracket closes exactly the fresh frame
            lemma_scan_one(st2, cl);
            assert(is_closer(st2.frames.last().kind, cl));
            assert(step(st2, cl).frames =~= push_child(st.frames, n)) by {
                assert(st2.frames.drop_last() =~= st.frames);
            }
            assert(scan(st, bracket_chars_node(n)) =~~= (StateV {
                frames: push_child(st.frames, n),
                leaf: LeafV::NoLeaf,
            }));
        },
        _ => {
            assert(false);
        },
    }
}

/// Scanning the bracket rendering of a group-only forest, with a group
/// active, appends exactly that forest to the active group's children.
pub proof fn lemma_bracket_seq(st: StateV, ns: Seq<NodeV>)
    requires
        state_wf(st),
        st.leaf is NoLeaf,
        brackets_only_seq(ns),
    ensures
        scan(st, bracket_chars_seq(ns)) == (StateV {
            frames: st.frames.update(
                st.frames.len() - 1,
                FrameV {
                    kind: st.frames.last().kind,
                    children: st.frames.last().children + ns,
                },
            ),
            leaf: LeafV::NoLeaf,
        }),
    decreases ns,
{
    let last: int = st.frames.len() - 1;
    if ns.len() == 0 {
        assert(st.frames.last().children + ns =~= st.frames.last().children);
        assert(st.frames.update(
            last,
            FrameV { kind: st.frames.last().kind, children: st.frames.last().children + ns },
        ) =~= st.frames);
        assert(scan(st, bracket_chars_seq(ns)) == st);
        assert(st =~~= (StateV {
            frames: st.frames.update(
                last,
                FrameV { kind: st.frames.last().kind, children: st.frames.last().children + ns },
            ),
            leaf: LeafV::NoLeaf,
        }));
    } else {
        let tail = ns.subrange(1, ns.len() as int);
        lemma_scan_concat(st, bracket_chars_node(ns[0]), bracket_chars_seq(tail));
        assert(brackets_only_node(ns[0]));
        lemma_bracket_node(st, ns[0]);
        let st1 = StateV { frames: push_child(st.frames, ns[0]), leaf: LeafV::NoLeaf };
        lemma_push_child_facts(st.frames, ns[0]);
        lemma_bracket_seq(st1, tail);
        assert(st1.frames.last() == (FrameV {
            kind: st.frames.last().kind,
            children: st.frames.last().children.push(ns[0]),
        }));
        assert(st.frames.last().children.push(ns[0]) + tail =~= st.frames.last().children + ns);
        assert(st1.frames.update(
            st1.frames.len() - 1,
            FrameV {
                kind: st1.frames.last().kind,
                children: st1.frames.last().children + tail,
            },
        ) =~= st.frames.update(
            last,
            FrameV { kind: st.frames.last().kind, children: st.frames.last().children + ns },
        ));
        assert(scan(st, bracket_chars_seq(ns)) =~~= (StateV {
            frames: st.frames.update(
                last,
                FrameV { kind: st.frames.last().kind, children: st.frames.last().children + ns },
            ),
            leaf: LeafV::NoLeaf,
        }));
    }
}

/// Bracket nesting: scanning any balanced bracket input — presented as the
/// rendering of a group-only forest — from a fresh root yields a root whose
/// children are exactly that forest: the tree's nesting and every group's
/// kind mirror the bracket structure.
pub proof fn lemma_bracket_nesting(ns: Seq<NodeV>)
    requires
        brackets_only_seq(ns),
    ensures
        scan(init_state(), bracket_chars_seq(ns)) == (StateV {
            frames: seq![FrameV { kind: GroupType::Root, children: ns }],
            leaf: LeafV::NoLeaf,
        }),
{
    lemma_bracket_seq(init_state(), ns);
    assert(init_state().frames.update(
        0,
        FrameV { kind: GroupType::Root, children: Seq::<NodeV>::empty() + ns },
    ) =~= seq![FrameV { kind: GroupType::Root, children: ns }]) by {
        assert(Seq::<NodeV>::empty() + ns =~= ns);
    }
    assert(scan(init_state(), bracket_chars_seq(ns)) =~~= (StateV {
        frames: seq![FrameV { kind: GroupType::Root, children: ns }],
        leaf: LeafV::NoLeaf,
    }));
}

/// Over a whole scan the root group survives, keeps its kind, and its child
/// list only grows, in source order.
pub proof fn lemma_scan_root_monotone(st: StateV, s: Seq<char>)
    requires
        state_wf(st),
    ensures
        state_wf(scan(st, s)),
        scan(st, s).frames[0].kind == st.frames[0].kind,
        st.frames[0].children.is_prefix_of(scan(st, s).frames[0].children),
    decreases s.len(),
{
    if s.len() == 0 {
        lemma_prefix_refl(st.frames[0].children);
    } else {
        let st1 = step(st, s[0]);
        lemma_step_wf(st, s[0]);
        lemma_step_appends_only(st, s[0]);
        lemma_scan_root_monotone(st1, s.subrange(1, s.len() as int));
        lemma_prefix_trans(
            st.frames[0].children,
            st1.frames[0].children,
            scan(st, s).frames[0].children,
        );
    }
}

} // verus!
