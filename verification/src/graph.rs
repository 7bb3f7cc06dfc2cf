//! A status-bar usage graph: a sliding window of percentage samples drawn as
//! a row of braille cells, one cell per sample, each column of dots scaled
//! to one of five levels.

use vstd::prelude::*;
use vstd::string::StringExecFns;
use std::collections::VecDeque;

verus! {

/// The dot level a percentage fills: 0 dots up to 20%, one more for each
/// further 20%.
pub open spec fn spec_pct_threshold(i: u8) -> u8 {
    if i > 80 {
        4
    } else if i > 60 {
        3
    } else if i > 40 {
        2
    } else if i > 20 {
        1
    } else {
        0
    }
}

/// The braille cell whose columns show the levels `next_t` and `curr_t`;
/// levels above four render as the empty cell, which no reachable call
/// produces.
pub open spec fn spec_braille_cell(next_t: u8, curr_t: u8) -> char {
    match (next_t, curr_t) {
        (0u8, 0u8) => '\u{2800}',
        (0u8, 1u8) => '\u{2880}',
        (0u8, 2u8) => '\u{28A0}',
        (0u8, 3u8) => '\u{28B0}',
        (0u8, 4u8) => '\u{28B8}',
        (1u8, 0u8) => '\u{2840}',
        (1u8, 1u8) => '\u{28C0}',
        (1u8, 2u8) => '\u{28E0}',
        (1u8, 3u8) => '\u{28F0}',
        (1u8, 4u8) => '\u{28F8}',
        (2u8, 0u8) => '\u{2844}',
        (2u8, 1u8) => '\u{28C4}',
        (2u8, 2u8) => '\u{28E4}',
        (2u8, 3u8) => '\u{28F4}',
        (2u8, 4u8) => '\u{28FC}',
        (3u8, 0u8) => '\u{2846}',
        (3u8, 1u8) => '\u{28C6}',
        (3u8, 2u8) => '\u{28E6}',
        (3u8, 3u8) => '\u{28F6}',
        (3u8, 4u8) => '\u{28FE}',
        (4u8, 0u8) => '\u{2847}',
        (4u8, 1u8) => '\u{28C7}',
        (4u8, 2u8) => '\u{28E7}',
        (4u8, 3u8) => '\u{28F7}',
        (4u8, 4u8) => '\u{28FF}',
        _ => '\u{2800}',
    }
}

/// The rendered text of a sample window: one cell per sample, both columns
/// of each cell showing that sample's level.
pub open spec fn spec_render(data: Seq<u8>) -> Seq<char> {
    Seq::new(
        data.len(),
        |i: int|
            spec_braille_cell(spec_pct_threshold(data[i]), spec_pct_threshold(data[i])),
    )
}

/// A sliding window of usage samples drawn as braille cells.
pub struct BrailleGraph {
    data: VecDeque<u8>,
    length: usize,
}

impl BrailleGraph {
    /// The recorded samples, oldest first.
    pub closed spec fn samples(&self) -> Seq<u8> {
        self.data@
    }

    /// The configured graph length in cells.
    pub closed spec fn window(&self) -> usize {
        self.length
    }

    /// A graph of the given length, primed with all-zero samples.
    pub fn new(length: usize) -> (g: BrailleGraph)
        ensures
            g.samples() == Seq::new(length as nat, |i: int| 0u8),
            g.window() == length,
    {
        let mut data: VecDeque<u8> = VecDeque::new();
        let mut i: usize = 0;
        while i < length
            invariant
                i <= length,
                data@ == Seq::new(i as nat, |k: int| 0u8),
            decreases length - i,
        {
            data.push_back(0);
            i = i + 1;
            proof {
                assert(data@ =~= Seq::new(i as nat, |k: int| 0u8));
            }
        }
        BrailleGraph { data, length }
    }

    /// Record one sample: the oldest sample falls out once the window is
    /// full, and the new sample joins at the right.
    pub fn update(&mut self, pct: u8)
        ensures
            final(self).window() == old(self).window(),
            final(self).samples() == if old(self).samples().len() >= old(self).window() && old(
                self,
            ).samples().len() > 0 {
                old(self).samples().drop_first().push(pct)
            } else {
                old(self).samples().push(pct)
            },
    {
        if self.data.len() >= self.length {
            let _ = self.data.pop_front();
        }
        self.data.push_back(pct);
        proof {
            if old(self).samples().len() >= old(self).window() && old(self).samples().len() > 0 {
                assert(self.samples() =~= old(self).samples().drop_first().push(pct));
            }
        }
    }

    /// The dot level of one percentage sample.
    pub fn pct_thresholds(i: u8) -> (t: u8)
        ensures
            t == spec_pct_threshold(i),
    {
        if i > 80 {
            4
        } else if i > 60 {
            3
        } else if i > 40 {
            2
        } else if i > 20 {
            1
        } else {
            0
        }
    }

    /// Draw the graph: one braille cell per recorded sample.
    pub fn render(&self) -> (s: String)
        ensures
            s@ == spec_render(self.samples()),
    {
        let mut s = String::new();
        let mut i: usize = 0;
        proof {
            assert(s@ =~= spec_render(self.samples()).subrange(0, 0));
        }
        while i < self.data.len()
            invariant
                i <= self.data@.len(),
                self.samples() == self.data@,
                s@ == spec_render(self.samples()).subrange(0, i as int),
            decreases self.data@.len() - i,
        {
            let t = BrailleGraph::pct_thresholds(self.data[i]);
            s.append(braille_cell_str(t, t));
            i = i + 1;
            proof {
                assert(s@ =~= spec_render(self.samples()).subrange(0, i as int));
            }
        }
        proof {
            assert(spec_render(self.samples()).subrange(0, i as int) =~= spec_render(
                self.samples(),
            ));
        }
        s
    }
}

/// The one-character string of one braille cell.
fn braille_cell_str(next_t: u8, curr_t: u8) -> (c: &'static str)
    ensures
        c@ == seq![spec_braille_cell(next_t, curr_t)],
{
    match (next_t, curr_t) {
        (0, 0) => {
            proof {
                reveal_strlit("\u{2800}");
            }
            "\u{2800}"
        },
        (0, 1) => {
            proof {
                reveal_strlit("\u{2880}");
            }
            "\u{2880}"
        },
        (0, 2) => {
            proof {
                reveal_strlit("\u{28A0}");
            }
            "\u{28A0}"
        },
        (0, 3) => {
            proof {
                reveal_strlit("\u{28B0}");
            }
            "\u{28B0}"
        },
        (0, 4) => {
            proof {
                reveal_strlit("\u{28B8}");
            }
            "\u{28B8}"
        },
        (1, 0) => {
            proof {
                reveal_strlit("\u{2840}");
            }
            "\u{2840}"
        },
        (1, 1) => {
            proof {
                reveal_strlit("\u{28C0}");
            }
            "\u{28C0}"
        },
        (1, 2) => {
            proof {
                reveal_strlit("\u{28E0}");
            }
            "\u{28E0}"
        },
        (1, 3) => {
            proof {
                reveal_strlit("\u{28F0}");
            }
            "\u{28F0}"
        },
        (1, 4) => {
            proof {
                reveal_strlit("\u{28F8}");
            }
            "\u{28F8}"
        },
        (2, 0) => {
            proof {
                reveal_strlit("\u{2844}");
            }
            "\u{2844}"
        },
        (2, 1) => {
            proof {
                reveal_strlit("\u{28C4}");
            }
            "\u{28C4}"
        },
        (2, 2) => {
            proof {
                reveal_strlit("\u{28E4}");
            }
            "\u{28E4}"
        },
        (2, 3) => {
            proof {
                reveal_strlit("\u{28F4}");
            }
            "\u{28F4}"
        },
        (2, 4) => {
            proof {
                reveal_strlit("\u{28FC}");
            }
            "\u{28FC}"
        },
        (3, 0) => {
            proof {
                reveal_strlit("\u{2846}");
            }
            "\u{2846}"
        },
        (3, 1) => {
            proof {
                reveal_strlit("\u{28C6}");
            }
            "\u{28C6}"
        },
        (3, 2) => {
            proof {
                reveal_strlit("\u{28E6}");
            }
            "\u{28E6}"
        },
        (3, 3) => {
            proof {
                reveal_strlit("\u{28F6}");
            }
            "\u{28F6}"
        },
        (3, 4) => {
            proof {
                reveal_strlit("\u{28FE}");
            }
            "\u{28FE}"
        },
        (4, 0) => {
            proof {
                reveal_strlit("\u{2847}");
            }
            "\u{2847}"
        },
        (4, 1) => {
            proof {
                reveal_strlit("\u{28C7}");
            }
            "\u{28C7}"
        },
        (4, 2) => {
            proof {
                reveal_strlit("\u{28E7}");
            }
            "\u{28E7}"
        },
        (4, 3) => {
            proof {
                reveal_strlit("\u{28F7}");
            }
            "\u{28F7}"
        },
        (4, 4) => {
            proof {
                reveal_strlit("\u{28FF}");
            }
            "\u{28FF}"
        },
        _ => {
            proof {
                reveal_strlit("\u{2800}");
            }
            "\u{2800}"
        },
    }
}

} // verus!
