//! Grouping the sections of a message into submessages.
//!
//! A submessage is one field of data: a product definition, a data
//! representation, a bit map and the data itself, Sections 4 to 7 in that
//! order, together with the grid definition and the local use section that
//! are in force where Section 4 stands. A message may hold several, and the
//! later ones may leave out Sections 2 and 3 and take over the last ones seen.

use vstd::prelude::*;
use crate::error::FormatError;
use crate::section::Section;

verus! {

/// The sections of one submessage, as indices into the section list of the
/// message.
#[derive(Debug, Clone, Copy, PartialEq, Eq)]
pub struct SubMessage {
    pub section2: Option<usize>,
    pub section3: usize,
    pub section4: usize,
    pub section5: usize,
    pub section6: usize,
    pub section7: usize,
}

/// How far the submessage under construction has come.
#[derive(Debug, Clone, Copy, PartialEq, Eq)]
pub enum Stage {
    /// No submessage is open.
    Idle,
    /// Section 4 was seen, Section 5 must follow.
    Product { section2: Option<usize>, section3: usize, section4: usize },
    /// Section 5 was seen, Section 6 must follow.
    Representation { section2: Option<usize>, section3: usize, section4: usize, section5: usize },
    /// Section 6 was seen, Section 7 must follow.
    Bitmap {
        section2: Option<usize>,
        section3: usize,
        section4: usize,
        section5: usize,
        section6: usize,
    },
}

/// What the assembler remembers between two sections.
#[derive(Debug, Clone, Copy, PartialEq, Eq)]
pub struct Assembler {
    /// The last Section 2 seen, if any.
    pub section2: Option<usize>,
    /// The last Section 3 seen, if any.
    pub section3: Option<usize>,
    pub stage: Stage,
}

/// The assembler before the first section.
pub open spec fn start() -> Assembler {
    Assembler { section2: None, section3: None, stage: Stage::Idle }
}

/// What the section with the given number at the given index does to the
/// assembler: the state that follows and the submessage that the section
/// completes, if it completes one.
pub open spec fn step(state: Assembler, index: usize, number: u8) -> Result<
    (Assembler, Option<SubMessage>),
    FormatError,
> {
    match state.stage {
        Stage::Idle => {
            if number == 0 || number == 1 || number == 8 {
                Ok((state, None))
            } else if number == 2 {
                Ok((Assembler { section2: Some(index), ..state }, None))
            } else if number == 3 {
                Ok((Assembler { section3: Some(index), ..state }, None))
            } else if number == 4 {
                match state.section3 {
                    Some(section3) => Ok(
                        (
                            Assembler {
                                stage: Stage::Product {
                                    section2: state.section2,
                                    section3,
                                    section4: index,
                                },
                                ..state
                            },
                            None,
                        ),
                    ),
                    None => Err(FormatError::MissingGridDefinition),
                }
            } else {
                Err(FormatError::MalformedStructure)
            }
        },
        Stage::Product { section2, section3, section4 } => {
            if number == 5 {
                Ok(
                    (
                        Assembler {
                            stage: Stage::Representation {
                                section2,
                                section3,
                                section4,
                                section5: index,
                            },
                            ..state
                        },
                        None,
                    ),
                )
            } else {
                Err(FormatError::MalformedStructure)
            }
        },
        Stage::Representation { section2, section3, section4, section5 } => {
            if number == 6 {
                Ok(
                    (
                        Assembler {
                            stage: Stage::Bitmap {
                                section2,
                                section3,
                                section4,
                                section5,
                                section6: index,
                            },
                            ..state
                        },
                        None,
                    ),
                )
            } else {
                Err(FormatError::MalformedStructure)
            }
        },
        Stage::Bitmap { section2, section3, section4, section5, section6 } => {
            if number == 7 {
                Ok(
                    (
                        Assembler { stage: Stage::Idle, ..state },
                        Some(
                            SubMessage {
                                section2,
                                section3,
                                section4,
                                section5,
                                section6,
                                section7: index,
                            },
                        ),
                    ),
                )
            } else {
                Err(FormatError::MalformedStructure)
            }
        },
    }
}

/// The assembler after the first `n` sections and the submessages that they
/// complete, or the first error on the way.
pub open spec fn assemble_prefix(sections: Seq<Section>, n: nat) -> Result<
    (Assembler, Seq<SubMessage>),
    FormatError,
>
    decreases n,
{
    if n == 0 {
        Ok((start(), Seq::empty()))
    } else {
        match assemble_prefix(sections, (n - 1) as nat) {
            Err(e) => Err(e),
            Ok((state, done)) => match step(state, (n - 1) as usize, sections[n - 1].number) {
                Err(e) => Err(e),
                Ok((next, Some(sub))) => Ok((next, done.push(sub))),
                Ok((next, None)) => Ok((next, done)),
            },
        }
    }
}

/// The submessages of a section list. A list that ends inside a submessage
/// is malformed.
pub open spec fn assemble_spec(sections: Seq<Section>) -> Result<Seq<SubMessage>, FormatError> {
    match assemble_prefix(sections, sections.len()) {
        Err(e) => Err(e),
        Ok((state, done)) => if state.stage is Idle {
            Ok(done)
        } else {
            Err(FormatError::MalformedStructure)
        },
    }
}

/// A submessage points at sections of the right numbers, in the order
/// 3, 4, 5, 6, 7 with 4 to 7 next to each other, and its Section 2, if it
/// has one, stands before its Section 4.
pub open spec fn submessage_valid(sections: Seq<Section>, sub: SubMessage) -> bool {
    &&& sub.section3 < sub.section4
    &&& sub.section5 == sub.section4 + 1
    &&& sub.section6 == sub.section4 + 2
    &&& sub.section7 == sub.section4 + 3
    &&& sub.section7 < sections.len()
    &&& sections[sub.section3 as int].number == 3
    &&& sections[sub.section4 as int].number == 4
    &&& sections[sub.section5 as int].number == 5
    &&& sections[sub.section6 as int].number == 6
    &&& sections[sub.section7 as int].number == 7
    &&& (sub.section2 matches Some(i) ==> i < sub.section4 && sections[i as int].number == 2)
}

/// Every submessage is valid, and each one ends before the next begins.
pub open spec fn submessages_valid(sections: Seq<Section>, subs: Seq<SubMessage>) -> bool {
    &&& forall|k: int| 0 <= k < subs.len() ==> submessage_valid(sections, #[trigger] subs[k])
    &&& forall|j: int, k: int|
        0 <= j < k < subs.len() ==> (#[trigger] subs[j]).section7 < (#[trigger] subs[k]).section4
}

spec fn seen_before(sections: Seq<Section>, index: Option<usize>, number: u8, n: nat) -> bool {
    index matches Some(i) ==> i < n && sections[i as int].number == number
}

spec fn prefix_inv(sections: Seq<Section>, n: nat, state: Assembler, done: Seq<SubMessage>) -> bool {
    &&& submessages_valid(sections, done)
    &&& forall|k: int| 0 <= k < done.len() ==> (#[trigger] done[k]).section7 < n
    &&& seen_before(sections, state.section2, 2, n)
    &&& seen_before(sections, state.section3, 3, n)
    &&& match state.stage {
        Stage::Idle => true,
        Stage::Product { section2, section3, section4 } => {
            &&& section4 + 1 == n
            &&& sections[section4 as int].number == 4
            &&& seen_before(sections, section2, 2, section4 as nat)
            &&& seen_before(sections, Some(section3), 3, section4 as nat)
        },
        Stage::Representation { section2, section3, section4, section5 } => {
            &&& section4 + 2 == n
            &&& section5 == section4 + 1
            &&& sections[section4 as int].number == 4
            &&& sections[section5 as int].number == 5
            &&& seen_before(sections, section2, 2, section4 as nat)
            &&& seen_before(sections, Some(section3), 3, section4 as nat)
        },
        Stage::Bitmap { section2, section3, section4, section5, section6 } => {
            &&& section4 + 3 == n
            &&& section5 == section4 + 1
            &&& section6 == section4 + 2
            &&& sections[section4 as int].number == 4
            &&& sections[section5 as int].number == 5
            &&& sections[section6 as int].number == 6
            &&& seen_before(sections, section2, 2, section4 as nat)
            &&& seen_before(sections, Some(section3), 3, section4 as nat)
        },
    }
}

proof fn lemma_prefix_inv(sections: Seq<Section>, n: nat)
    requires
        n <= sections.len() <= usize::MAX,
    ensures
        assemble_prefix(sections, n) matches Ok((state, done)) ==> prefix_inv(
            sections,
            n,
            state,
            done,
        ),
    decreases n,
{
    if n > 0 {
        lemma_prefix_inv(sections, (n - 1) as nat);
        if let Ok((state, done)) = assemble_prefix(sections, (n - 1) as nat) {
            if let Ok((next, emitted)) = step(state, (n - 1) as usize, sections[n - 1].number) {
                if let Some(sub) = emitted {
                    let all = done.push(sub);
                    assert forall|k: int| 0 <= k < all.len() implies submessage_valid(
                        sections,
                        #[trigger] all[k],
                    ) && all[k].section7 < n by {
                        if k < done.len() {
                            assert(all[k] == done[k]);
                        }
                    }
                    assert forall|j: int, k: int| 0 <= j < k < all.len() implies (
                    #[trigger] all[j]).section7 < (#[trigger] all[k]).section4 by {
                        assert(all[j] == done[j]);
                        if k < done.len() {
                            assert(all[k] == done[k]);
                        }
                    }
                }
            }
        }
    }
}

/// The submessages of a section list point at sections of the right
/// numbers, each in the order 3, 4, 5, 6, 7, and follow one another without
/// overlap.
pub proof fn lemma_assemble_valid(sections: Seq<Section>)
    requires
        sections.len() <= usize::MAX,
    ensures
        assemble_spec(sections) matches Ok(subs) ==> submessages_valid(sections, subs),
{
    lemma_prefix_inv(sections, sections.len());
}

fn advance(state: Assembler, index: usize, number: u8) -> (r: Result<
    (Assembler, Option<SubMessage>),
    FormatError,
>)
    ensures
        r == step(state, index, number),
{
    match state.stage {
        Stage::Idle => {
            if number == 0 || number == 1 || number == 8 {
                Ok((state, None))
            } else if number == 2 {
                Ok(
                    (
                        Assembler {
                            section2: Some(index),
                            section3: state.section3,
                            stage: state.stage,
                        },
                        None,
                    ),
                )
            } else if number == 3 {
                Ok(
                    (
                        Assembler {
                            section2: state.section2,
                            section3: Some(index),
                            stage: state.stage,
                        },
                        None,
                    ),
                )
            } else if number == 4 {
                match state.section3 {
                    Some(section3) => Ok(
                        (
                            Assembler {
                                section2: state.section2,
                                section3: state.section3,
                                stage: Stage::Product {
                                    section2: state.section2,
                                    section3,
                                    section4: index,
                                },
                            },
                            None,
                        ),
                    ),
                    None => Err(FormatError::MissingGridDefinition),
                }
            } else {
                Err(FormatError::MalformedStructure)
            }
        },
        Stage::Product { section2, section3, section4 } => {
            if number == 5 {
                Ok(
                    (
                        Assembler {
                            section2: state.section2,
                            section3: state.section3,
                            stage: Stage::Representation {
                                section2,
                                section3,
                                section4,
                                section5: index,
                            },
                        },
                        None,
                    ),
                )
            } else {
                Err(FormatError::MalformedStructure)
            }
        },
        Stage::Representation { section2, section3, section4, section5 } => {
            if number == 6 {
                Ok(
                    (
                        Assembler {
                            section2: state.section2,
                            section3: state.section3,
                            stage: Stage::Bitmap {
                                section2,
                                section3,
                                section4,
                                section5,
                                section6: index,
                            },
                        },
                        None,
                    ),
                )
            } else {
                Err(FormatError::MalformedStructure)
            }
        },
        Stage::Bitmap { section2, section3, section4, section5, section6 } => {
            if number == 7 {
                Ok(
                    (
                        Assembler {
                            section2: state.section2,
                            section3: state.section3,
                            stage: Stage::Idle,
                        },
                        Some(
                            SubMessage {
                                section2,
                                section3,
                                section4,
                                section5,
                                section6,
                                section7: index,
                            },
                        ),
                    ),
                )
            } else {
                Err(FormatError::MalformedStructure)
            }
        },
    }
}

/// Groups the sections of a message into its submessages.
///
/// The sections are taken in order. Sections 2 and 3 are remembered, each
/// until the next of its number. Section 4 opens a submessage with the
/// Sections 2 and 3 remembered at that point, and fails with
/// `MissingGridDefinition` when no Section 3 has been seen. Sections 5, 6
/// and 7 must follow it at once and in that order; anything else there, one
/// of them elsewhere, a number above 8 or an end inside a submessage fails
/// with `MalformedStructure`. The first failure in order is the one
/// reported.
pub fn assemble(sections: &[Section]) -> (r: Result<Vec<SubMessage>, FormatError>)
    ensures
        match r {
            Ok(subs) => assemble_spec(sections@) == Ok::<Seq<SubMessage>, FormatError>(subs@)
                && submessages_valid(sections@, subs@),
            Err(e) => assemble_spec(sections@) == Err::<Seq<SubMessage>, FormatError>(e),
        },
{
    let n: usize = sections.len();
    let mut state = Assembler { section2: None, section3: None, stage: Stage::Idle };
    let mut done: Vec<SubMessage> = Vec::new();
    let mut i: usize = 0;
    while i < n
        invariant
            n == sections@.len(),
            i <= n,
            assemble_prefix(sections@, i as nat) == Ok::<
                (Assembler, Seq<SubMessage>),
                FormatError,
            >((state, done@)),
        decreases n - i,
    {
        match advance(state, i, sections[i].number) {
            Err(e) => {
                proof {
                    lemma_prefix_error_stays(sections@, (i + 1) as nat, n as nat);
                }
                return Err(e);
            },
            Ok((next, emitted)) => {
                state = next;
                if let Some(sub) = emitted {
                    done.push(sub);
                }
            },
        }
        i = i + 1;
    }
    proof {
        lemma_assemble_valid(sections@);
    }
    match state.stage {
        Stage::Idle => Ok(done),
        _ => Err(FormatError::MalformedStructure),
    }
}

proof fn lemma_prefix_error_stays(sections: Seq<Section>, m: nat, n: nat)
    requires
        m <= n,
        assemble_prefix(sections, m) is Err,
    ensures
        assemble_prefix(sections, n) == assemble_prefix(sections, m),
    decreases n,
{
    if m < n {
        lemma_prefix_error_stays(sections, m, (n - 1) as nat);
    }
}

} // verus!
