//! The matrix store: the dense square adjacency matrix of edge weights
//! and the per-node label list, owned together so that their sizes can
//! never drift apart.

use vstd::prelude::*;

use crate::spec_vec_offset;
use crate::vec_offset;
use crate::weights::ABSENT;

verus! {

/// Rejection of an input whose shape the engine cannot work on: the
/// weight matrix is not square with one row and one column per label.
#[derive(Clone, Copy, Debug, PartialEq, Eq, Structural)]
pub enum ShapeError {
    NotSquare,
}

/// The ATria centrality engine's state: the node labels, the live
/// adjacency matrix in row-major order, and the per-node output scores.
///
/// Weights are IEEE 754 single-precision values carried as their 32-bit
/// patterns; see the `weights` module.
#[derive(Debug)]
pub struct ATriaPlugin {
    /// The display label of each node, in node-index order.
    pub bacteria: Vec<String>,
    /// The live adjacency matrix, row-major, `size() * size()` cells.
    pub orig_graph: Vec<u32>,
    /// One output score per node, written in the round the node is
    /// selected, zero until then.
    pub output: Vec<u32>,
}

impl Default for ATriaPlugin {
    /// An empty engine: no nodes, no matrix, no output.
    fn default() -> (r: Self)
        ensures
            r.bacteria@ == Seq::<String>::empty(),
            r.orig_graph@ == Seq::<u32>::empty(),
            r.output@ == Seq::<u32>::empty(),
            r.wf(),
    {
        let r = ATriaPlugin { bacteria: Vec::new(), orig_graph: Vec::new(), output: Vec::new() };
        proof {
            assert(r.bacteria.len() == 0);
            assert(r.orig_graph.len() == 0);
        }
        r
    }
}

/// A vector of `n` absent-edge weights.
fn absent_vec(n: usize) -> (r: Vec<u32>)
    ensures
        r@ == Seq::new(n as nat, |i: int| ABSENT),
{
    let mut r: Vec<u32> = Vec::new();
    let mut i: usize = 0;
    while i < n
        invariant
            i <= n,
            r@ == Seq::new(i as nat, |k: int| ABSENT),
        decreases n - i,
    {
        r.push(ABSENT);
        i = i + 1;
        proof {
            assert(r@ =~= Seq::new(i as nat, |k: int| ABSENT));
        }
    }
    r
}

impl ATriaPlugin {
    /// The store is well-formed: the matrix is square with one row per
    /// label, and the output vector holds one score per label.
    pub open spec fn wf(self) -> bool {
        &&& self.orig_graph.len() == self.bacteria.len() * self.bacteria.len()
        &&& self.output.len() == self.bacteria.len()
    }

    /// The number of nodes.
    pub fn size(&self) -> (n: usize)
        ensures
            n == self.bacteria.len(),
    {
        self.bacteria.len()
    }

    /// Build a store from a label list and a row-major weight matrix.
    /// Succeeds exactly when the matrix is square with one row per
    /// label; the output vector starts at one absent score per node.
    pub fn load(labels: Vec<String>, matrix: Vec<u32>) -> (r: Result<ATriaPlugin, ShapeError>)
        ensures
            match r {
                Ok(p) => {
                    &&& matrix.len() == labels.len() * labels.len()
                    &&& p.wf()
                    &&& p.bacteria@ == labels@
                    &&& p.orig_graph@ == matrix@
                    &&& p.output@ == Seq::new(labels.len() as nat, |i: int| ABSENT)
                },
                Err(e) => {
                    &&& matrix.len() != labels.len() * labels.len()
                    &&& e == ShapeError::NotSquare
                },
            },
    {
        let n = labels.len();
        let square = match n.checked_mul(n) {
            Some(sq) => sq == matrix.len(),
            None => false,
        };
        if square {
            let output = absent_vec(n);
            Ok(ATriaPlugin { bacteria: labels, orig_graph: matrix, output })
        } else {
            proof {
                if matrix.len() == labels.len() * labels.len() {
                    assert(labels.len() * labels.len() <= usize::MAX);
                }
            }
            Err(ShapeError::NotSquare)
        }
    }

    /// Read the weight of the edge from node `i` to node `j`.
    pub fn get(&self, i: usize, j: usize) -> (w: u32)
        requires
            self.wf(),
            i < self.bacteria.len(),
            j < self.bacteria.len(),
        ensures
            w == self.orig_graph@[spec_vec_offset(
                i as int,
                j as int,
                self.bacteria.len() as int,
            )],
    {
        let n = self.bacteria.len();
        let off = vec_offset(i, j, n);
        self.orig_graph[off]
    }

    /// Overwrite the weight of the edge from node `i` to node `j`,
    /// leaving every other cell, the labels and the output unchanged.
    pub fn set(&mut self, i: usize, j: usize, w: u32)
        requires
            old(self).wf(),
            i < old(self).bacteria.len(),
            j < old(self).bacteria.len(),
        ensures
            final(self).wf(),
            final(self).bacteria@ == old(self).bacteria@,
            final(self).output@ == old(self).output@,
            final(self).orig_graph@ == old(self).orig_graph@.update(
                spec_vec_offset(i as int, j as int, old(self).bacteria.len() as int),
                w,
            ),
    {
        let n = self.bacteria.len();
        let off = vec_offset(i, j, n);
        self.orig_graph.set(off, w);
    }

    /// An independent copy of the live adjacency matrix, for a round's
    /// scratch work.
    pub fn snapshot(&self) -> (c: Vec<u32>)
        ensures
            c@ == self.orig_graph@,
    {
        self.orig_graph.clone()
    }
}

} // verus!
