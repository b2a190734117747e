//! The mathematical model of the tokenizer: an abstract state (a stack of
//! open group frames plus the token being accumulated) and one transition
//! function `step` that consumes a single character.

use vstd::prelude::*;

use crate::atom::GroupType;

verus! {

// ---------------------------------------------------------------------------
// Character classes
// ---------------------------------------------------------------------------

/// ASCII alphabetic: the characters that start and extend an identifier.
pub open spec fn is_alpha(c: char) -> bool {
    (97 <= c as u32 && c as u32 <= 122) || (65 <= c as u32 && c as u32 <= 90)
}

/// ASCII decimal digit.
pub open spec fn is_digit(c: char) -> bool {
    48 <= c as u32 && c as u32 <= 57
}

/// ASCII alphanumeric: the characters that extend an identifier.
pub open spec fn is_alnum(c: char) -> bool {
    is_alpha(c) || is_digit(c)
}

/// The numeric value of an ASCII digit.
pub open spec fn digit_val(c: char) -> i64
    recommends
        is_digit(c),
{
    (c as u32 - 48) as i64
}

/// The operator-symbol alphabet.  A run of these characters forms one
/// operator token.  `.` is a member, but a digit-led `.` is intercepted by
/// the integer state before an operator can start on it.
pub open spec fn is_op_symbol(c: char) -> bool {
    ||| c == '#'
    ||| c == '@'
    ||| c == '!'
    ||| c == '%'
    ||| c == '^'
    ||| c == '&'
    ||| c == '*'
    ||| c == '-'
    ||| c == '_'
    ||| c == '+'
    ||| c == '>'
    ||| c == '<'
    ||| c == '='
    ||| c == '/'
    ||| c == '\\'
    ||| c == '~'
    ||| c == '`'
    ||| c == ','
    ||| c == '.'
    ||| c == '|'
    ||| c == '?'
    ||| c == ':'
}

/// The distinguished terminal operator character: it both starts an operator
/// and finishes one, and is consumed into the token.
pub open spec fn is_final_op(c: char) -> bool {
    c == ';'
}

/// The escape table of string literals: what `\c` stands for.
/// Unknown escapes pass the character through unchanged.
pub open spec fn unescape(c: char) -> char {
    if c == 'n' {
        '\n'
    } else if c == 'r' {
        '\r'
    } else if c == 't' {
        '\t'
    } else {
        c
    }
}

/// The closing bracket of a group kind; only this character closes it.
pub open spec fn is_closer(k: GroupType, c: char) -> bool {
    match k {
        GroupType::Root => false,
        GroupType::Curly => c == '}',
        GroupType::Square => c == ']',
        GroupType::Curved => c == ')',
    }
}

/// The opening bracket of a bracket group kind.
pub open spec fn open_char(k: GroupType) -> char {
    match k {
        GroupType::Root => ' ',
        GroupType::Curly => '{',
        GroupType::Square => '[',
        GroupType::Curved => '(',
    }
}

/// The closing bracket of a bracket group kind.
pub open spec fn close_char(k: GroupType) -> char {
    match k {
        GroupType::Root => ' ',
        GroupType::Curly => '}',
        GroupType::Square => ']',
        GroupType::Curved => ')',
    }
}

// ---------------------------------------------------------------------------
// Abstract values
// ---------------------------------------------------------------------------

/// A finished atom, frozen as a child of its group.
#[verifier::ext_equal]
pub enum NodeV {
    Group { kind: GroupType, children: Seq<NodeV> },
    Identifier { text: Seq<char> },
    StringLiteral { text: Seq<char> },
    IntegerLiteral { value: i64 },
    NumericLiteral { base: i64, frac: Seq<u8> },
    Operator { text: Seq<char> },
}

/// One open group: its kind and the children finished so far, in order.
#[verifier::ext_equal]
pub struct FrameV {
    pub kind: GroupType,
    pub children: Seq<NodeV>,
}

/// The token being accumulated, if a leaf is active.
#[verifier::ext_equal]
pub enum LeafV {
    NoLeaf,
    Ident { text: Seq<char> },
    Str { text: Seq<char>, escaped: bool },
    Int { value: i64 },
    Num { base: i64, frac: Seq<u8> },
    Op { text: Seq<char> },
}

/// The whole tokenizer state: the chain of open groups from the root
/// outward, and the leaf currently consuming characters, if any.
#[verifier::ext_equal]
pub struct StateV {
    pub frames: Seq<FrameV>,
    pub leaf: LeafV,
}

/// The state a fresh scan starts from: a lone root group, no active leaf.
pub open spec fn init_state() -> StateV {
    StateV {
        frames: seq![FrameV { kind: GroupType::Root, children: Seq::empty() }],
        leaf: LeafV::NoLeaf,
    }
}

/// Well-formedness of a frame stack: at least the root frame is open, the
/// root frame is first, and no other frame is a root.
pub open spec fn frames_wf(fs: Seq<FrameV>) -> bool {
    &&& fs.len() >= 1
    &&& fs[0].kind == GroupType::Root
    &&& forall|i: int| 1 <= i < fs.len() ==> (#[trigger] fs[i].kind) != GroupType::Root
}

/// Well-formedness of a state: its frame stack is well formed.
pub open spec fn state_wf(st: StateV) -> bool {
    frames_wf(st.frames)
}

// ---------------------------------------------------------------------------
// The transition function
// ---------------------------------------------------------------------------

/// Append a finished atom to the innermost open group.
pub open spec fn push_child(frames: Seq<FrameV>, n: NodeV) -> Seq<FrameV>
    recommends
        frames.len() >= 1,
{
    let i = frames.len() - 1;
    frames.update(i, FrameV { kind: frames[i].kind, children: frames[i].children.push(n) })
}

/// Close the innermost open group: it becomes a child of the group below.
pub open spec fn close_group(frames: Seq<FrameV>) -> Seq<FrameV>
    recommends
        frames.len() >= 2,
{
    let top = frames.last();
    push_child(frames.drop_last(), NodeV::Group { kind: top.kind, children: top.children })
}

/// Default dispatch of a group on a character that does not close it:
/// open a sub-group, start a leaf, or drop the character.
pub open spec fn dispatch(frames: Seq<FrameV>, c: char) -> StateV
    recommends
        frames.len() >= 1,
{
    if c == '{' {
        StateV {
            frames: frames.push(FrameV { kind: GroupType::Curly, children: Seq::empty() }),
            leaf: LeafV::NoLeaf,
        }
    } else if c == '(' {
        StateV {
            frames: frames.push(FrameV { kind: GroupType::Curved, children: Seq::empty() }),
            leaf: LeafV::NoLeaf,
        }
    } else if c == '[' {
        StateV {
            frames: frames.push(FrameV { kind: GroupType::Square, children: Seq::empty() }),
            leaf: LeafV::NoLeaf,
        }
    } else if c == '"' {
        StateV { frames, leaf: LeafV::Str { text: Seq::empty(), escaped: false } }
    } else if is_alpha(c) {
        StateV { frames, leaf: LeafV::Ident { text: seq![c] } }
    } else if is_digit(c) {
        StateV { frames, leaf: LeafV::Int { value: digit_val(c) } }
    } else if is_final_op(c) {
        // the terminal operator is a complete one-character token by itself
        StateV { frames: push_child(frames, NodeV::Operator { text: seq![c] }), leaf: LeafV::NoLeaf }
    } else if is_op_symbol(c) {
        StateV { frames, leaf: LeafV::Op { text: seq![c] } }
    } else {
        // whitespace and unrecognized punctuation are dropped
        StateV { frames, leaf: LeafV::NoLeaf }
    }
}

/// A group consumes a character: its own closing bracket closes it;
/// everything else goes through default dispatch.
pub open spec fn group_step(frames: Seq<FrameV>, c: char) -> StateV
    recommends
        frames.len() >= 1,
{
    if is_closer(frames.last().kind, c) {
        StateV { frames: close_group(frames), leaf: LeafV::NoLeaf }
    } else {
        dispatch(frames, c)
    }
}

/// The complete transition function: one character consumed by the active
/// atom.  A leaf that does not recognize the character finalizes into its
/// group and the character is redispatched to that group.
pub open spec fn step(st: StateV, c: char) -> StateV
    recommends
        state_wf(st),
{
    match st.leaf {
        LeafV::NoLeaf => group_step(st.frames, c),
        LeafV::Ident { text } => {
            if is_alnum(c) {
                StateV { frames: st.frames, leaf: LeafV::Ident { text: text.push(c) } }
            } else {
                group_step(push_child(st.frames, NodeV::Identifier { text }), c)
            }
        },
        LeafV::Str { text, escaped } => {
            if escaped {
                StateV {
                    frames: st.frames,
                    leaf: LeafV::Str { text: text.push(unescape(c)), escaped: false },
                }
            } else if c == '\\' {
                StateV { frames: st.frames, leaf: LeafV::Str { text, escaped: true } }
            } else if c == '"' {
                // the closing quote is consumed, not appended, not redispatched
                StateV {
                    frames: push_child(st.frames, NodeV::StringLiteral { text }),
                    leaf: LeafV::NoLeaf,
                }
            } else {
                StateV { frames: st.frames, leaf: LeafV::Str { text: text.push(c), escaped } }
            }
        },
        LeafV::Int { value } => {
            if is_digit(c) {
                StateV {
                    frames: st.frames,
                    leaf: LeafV::Int { value: value.wrapping_mul(10).wrapping_add(digit_val(c)) },
                }
            } else if c == '.' {
                // promote to a fractional numeric literal; the dot itself
                // is consumed by the transition
                StateV { frames: st.frames, leaf: LeafV::Num { base: value, frac: Seq::empty() } }
            } else {
                group_step(push_child(st.frames, NodeV::IntegerLiteral { value }), c)
            }
        },
        LeafV::Num { base, frac } => {
            if is_digit(c) {
                StateV {
                    frames: st.frames,
                    leaf: LeafV::Num { base, frac: frac.push((c as u32 - 48) as u8) },
                }
            } else {
                group_step(push_child(st.frames, NodeV::NumericLiteral { base, frac }), c)
            }
        },
        LeafV::Op { text } => {
            if is_op_symbol(c) {
                StateV { frames: st.frames, leaf: LeafV::Op { text: text.push(c) } }
            } else if is_final_op(c) {
                // the terminal operator is consumed into the token and ends it
                StateV {
                    frames: push_child(st.frames, NodeV::Operator { text: text.push(c) }),
                    leaf: LeafV::NoLeaf,
                }
            } else {
                group_step(push_child(st.frames, NodeV::Operator { text }), c)
            }
        },
    }
}

/// The transition function iterated over a whole character sequence.
pub open spec fn scan(st: StateV, s: Seq<char>) -> StateV
    decreases s.len(),
{
    if s.len() == 0 {
        st
    } else {
        scan(step(st, s[0]), s.subrange(1, s.len() as int))
    }
}

/// Scanning one character after a sequence steps the scan of the sequence.
pub proof fn lemma_scan_snoc(st: StateV, s: Seq<char>, c: char)
    ensures
        scan(st, s.push(c)) == step(scan(st, s), c),
    decreases s.len(),
{
    let w = s.push(c);
    assert(scan(st, w) == scan(step(st, w[0]), w.subrange(1, w.len() as int)));
    if s.len() == 0 {
        assert(w[0] == c);
        assert(w.subrange(1, w.len() as int) =~= Seq::<char>::empty());
        assert(scan(step(st, c), Seq::<char>::empty()) == step(st, c));
        assert(scan(st, s) == st);
    } else {
        assert(w[0] == s[0]);
        assert(w.subrange(1, w.len() as int) =~= s.subrange(1, s.len() as int).push(c));
        lemma_scan_snoc(step(st, s[0]), s.subrange(1, s.len() as int), c);
        assert(scan(st, s) == scan(step(st, s[0]), s.subrange(1, s.len() as int)));
    }
}

/// Scanning a single character is one step.
pub proof fn lemma_scan_one(st: StateV, c: char)
    ensures
        scan(st, seq![c]) == step(st, c),
{
    let w: Seq<char> = seq![c];
    assert(scan(st, w) == scan(step(st, w[0]), w.subrange(1, 1)));
    assert(w.subrange(1, 1) =~= Seq::<char>::empty());
    assert(scan(step(st, c), w.subrange(1, 1)) == step(st, c));
}

/// Scanning a concatenation scans the two parts in order.
pub proof fn lemma_scan_concat(st: StateV, s: Seq<char>, t: Seq<char>)
    ensures
        scan(st, s + t) == scan(scan(st, s), t),
    decreases s.len(),
{
    if s.len() == 0 {
        assert(s + t =~= t);
    } else {
        assert((s + t)[0] == s[0]);
        assert((s + t).subrange(1, (s + t).len() as int) =~= s.subrange(1, s.len() as int) + t);
        lemma_scan_concat(step(st, s[0]), s.subrange(1, s.len() as int), t);
    }
}

} // verus!
