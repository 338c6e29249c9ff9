//! Sparse storage formats.

use vstd::prelude::*;
use vstd::arithmetic::power2::{pow2, lemma_pow2_pos, lemma_pow2_unfold, lemma2_to64};
use crate::text::{decimal, push_decimal};

verus! {

/// Sparse tensor storage formats.
#[derive(Debug, Clone, Copy, PartialEq, Eq, Structural)]
pub enum SparseFormat {
    /// Boolean mask over dense storage
    Mask,
    /// Compressed sparse row
    CSR,
    /// Compressed sparse column
    CSC,
    /// Coordinate list
    COO,
    /// Block-aligned compressed sparse row
    BlockCSR { block_size: usize },
    /// N:M structured sparsity: `n` non-zeros in every group of `m`
    NInM { n: usize, m: usize },
}

/// Whether `n` is a power of two.
pub open spec fn is_power_of_two(n: nat) -> bool {
    exists|k: nat| pow2(k) == n
}

/// A power of two made of an odd factor and a power of two has the odd
/// factor 1.
proof fn lemma_pow2_odd_factor(j: nat, m: nat, k: nat)
    requires
        m % 2 == 1,
        pow2(j) == m * pow2(k),
    ensures
        m == 1,
    decreases k,
{
    lemma_pow2_pos(k);
    if k == 0 {
        lemma2_to64();
        if j > 0 {
            lemma_pow2_unfold(j);
            assert(pow2(j) == 2 * pow2((j - 1) as nat));
            assert(m == pow2(j)) by (nonlinear_arith)
                requires
                    pow2(j) == m * pow2(k),
                    pow2(k) == 1,
            ;
        } else {
            assert(m == 1) by (nonlinear_arith)
                requires
                    pow2(j) == m * pow2(k),
                    pow2(k) == 1,
                    pow2(j) == 1,
            ;
        }
    } else {
        lemma_pow2_unfold(k);
        let k1 = (k - 1) as nat;
        lemma_pow2_pos(k1);
        if j == 0 {
            lemma2_to64();
            assert(false) by (nonlinear_arith)
                requires
                    pow2(j) == m * pow2(k),
                    pow2(k) == 2 * pow2(k1),
                    pow2(k1) > 0,
                    pow2(j) == 1,
                    m % 2 == 1,
            ;
        } else {
            lemma_pow2_unfold(j);
            let j1 = (j - 1) as nat;
            assert(pow2(j1) == m * pow2(k1)) by (nonlinear_arith)
                requires
                    pow2(j) == m * pow2(k),
                    pow2(k) == 2 * pow2(k1),
                    pow2(j) == 2 * pow2(j1),
            ;
            lemma_pow2_odd_factor(j1, m, k1);
        }
    }
}

/// Whether `n` is a power of two: halving it while it is even must end at 1.
fn usize_is_power_of_two(n: usize) -> (r: bool)
    ensures
        r == is_power_of_two(n as nat),
{
    if n == 0 {
        proof {
            assert forall|k: nat| pow2(k) != 0 by {
                lemma_pow2_pos(k);
            }
        }
        return false;
    }
    let mut m: usize = n;
    let ghost mut k: nat = 0;
    proof {
        lemma2_to64();
    }
    while m % 2 == 0
        invariant
            m > 0,
            n == m * pow2(k),
        decreases m,
    {
        proof {
            lemma_pow2_unfold(k + 1);
            assert(n == (m / 2) * pow2(k + 1)) by (nonlinear_arith)
                requires
                    n == m * pow2(k),
                    m % 2 == 0,
                    pow2(k + 1) == 2 * pow2(k),
            ;
        }
        m = m / 2;
        proof {
            k = k + 1;
        }
    }
    proof {
        if m == 1 {
            assert(pow2(k) == n);
        } else {
            assert forall|j: nat| pow2(j) != n by {
                if pow2(j) == n {
                    lemma_pow2_odd_factor(j, m as nat, k);
                }
            }
        }
    }
    m == 1
}

/// The message of a block size that is not a power of two.
pub open spec fn block_size_pow2_message(block_size: usize) -> Seq<char> {
    "Block size must be power of 2, got "@ + decimal(block_size as nat)
}

/// The message of a block size outside `[4, 128]`.
pub open spec fn block_size_range_message(block_size: usize) -> Seq<char> {
    "Block size must be in [4, 128], got "@ + decimal(block_size as nat)
}

/// The message of N:M parameters of which one is zero.
pub open spec fn nm_zero_message(n: usize, m: usize) -> Seq<char> {
    "N and M must be non-zero, got N="@ + decimal(n as nat) + ", M="@ + decimal(m as nat)
}

/// The message of N:M parameters with `n > m`.
pub open spec fn nm_order_message(n: usize, m: usize) -> Seq<char> {
    "N must be <= M, got N="@ + decimal(n as nat) + ", M="@ + decimal(m as nat)
}

/// The text that names a format.
pub open spec fn format_name(f: SparseFormat) -> Seq<char> {
    match f {
        SparseFormat::Mask => "Mask"@,
        SparseFormat::CSR => "CSR"@,
        SparseFormat::CSC => "CSC"@,
        SparseFormat::COO => "COO"@,
        SparseFormat::BlockCSR { block_size } => "BlockCSR("@ + decimal(block_size as nat) + ")"@,
        SparseFormat::NInM { n, m } => decimal(n as nat) + ":"@ + decimal(m as nat),
    }
}

/// Whether a block size is accepted: a power of two in `[4, 128]`.
pub open spec fn valid_block_size(block_size: usize) -> bool {
    is_power_of_two(block_size as nat) && 4 <= block_size <= 128
}

/// Whether N:M parameters are accepted: both non-zero and `n <= m`.
pub open spec fn valid_nm(n: usize, m: usize) -> bool {
    n != 0 && m != 0 && n <= m
}

impl SparseFormat {
    /// Whether the format is structured (N:M).
    pub fn is_structured(&self) -> (r: bool)
        ensures
            r == (*self is NInM),
    {
        matches!(self, Self::NInM { .. })
    }

    /// Whether the format allows any sparsity pattern.
    pub fn is_unstructured(&self) -> (r: bool)
        ensures
            r == !(*self is NInM),
    {
        matches!(self, Self::Mask | Self::CSR | Self::CSC | Self::COO | Self::BlockCSR { .. })
    }

    /// Checks a block size: it must be a power of two in `[4, 128]`.
    pub fn validate_block_size(block_size: usize) -> (r: Result<(), String>)
        ensures
            r is Ok <==> valid_block_size(block_size),
            r matches Err(msg) ==> msg@ == if !is_power_of_two(block_size as nat) {
                block_size_pow2_message(block_size)
            } else {
                block_size_range_message(block_size)
            },
    {
        if !usize_is_power_of_two(block_size) {
            let mut s = String::from_str("Block size must be power of 2, got ");
            push_decimal(&mut s, block_size as u64);
            return Err(s);
        }
        if block_size < 4 || block_size > 128 {
            let mut s = String::from_str("Block size must be in [4, 128], got ");
            push_decimal(&mut s, block_size as u64);
            return Err(s);
        }
        Ok(())
    }

    /// Checks N:M parameters: both non-zero and `n <= m`.
    pub fn validate_nm(n: usize, m: usize) -> (r: Result<(), String>)
        ensures
            r is Ok <==> valid_nm(n, m),
            r matches Err(msg) ==> msg@ == if n == 0 || m == 0 {
                nm_zero_message(n, m)
            } else {
                nm_order_message(n, m)
            },
    {
        if n == 0 || m == 0 {
            let mut s = String::from_str("N and M must be non-zero, got N=");
            push_decimal(&mut s, n as u64);
            s.append(", M=");
            push_decimal(&mut s, m as u64);
            return Err(s);
        }
        if n > m {
            let mut s = String::from_str("N must be <= M, got N=");
            push_decimal(&mut s, n as u64);
            s.append(", M=");
            push_decimal(&mut s, m as u64);
            return Err(s);
        }
        Ok(())
    }

    /// The format rendered as text: its name, `BlockCSR(b)` or `n:m`.
    pub fn to_string(&self) -> (s: String)
        ensures
            s@ == format_name(*self),
    {
        match self {
            Self::Mask => String::from_str("Mask"),
            Self::CSR => String::from_str("CSR"),
            Self::CSC => String::from_str("CSC"),
            Self::COO => String::from_str("COO"),
            Self::BlockCSR { block_size } => {
                let mut s = String::from_str("BlockCSR(");
                push_decimal(&mut s, *block_size as u64);
                s.append(")");
                s
            },
            Self::NInM { n, m } => {
                let mut s = String::new();
                push_decimal(&mut s, *n as u64);
                s.append(":");
                push_decimal(&mut s, *m as u64);
                s
            },
        }
    }
}

} // verus!
