//! The records of one gas report and the `Entry` that unites them.

use vstd::prelude::*;
use std::cmp::Ordering;
use crate::text::{compare_text, lex_cmp};

verus! {

/// The gas measured for deploying one contract.
#[derive(Debug, Clone)]
pub struct RawDeployment {
    pub name: String,
    pub gas_data: Vec<isize>,
}

/// A method call site, identified by its contract and method name.
#[derive(Debug, Clone, Eq, Ord)]
pub struct MethodIdentifier {
    pub contract: String,
    pub method: String,
}

/// The gas measured for the calls of one method.
#[derive(Debug, Clone)]
pub struct RawMethod {
    pub key: String,
    pub method: MethodIdentifier,
    pub signature: String,
    pub gas_data: Vec<isize>,
    pub number_of_calls: usize,
}

/// What one report holds: its methods (in the order they were read) and its
/// deployments.
#[derive(Debug, Clone)]
pub struct Info {
    pub methods: Vec<RawMethod>,
    pub deployments: Vec<RawDeployment>,
}

/// A deployment or a method, so that both can be compared and averaged alike.
#[derive(Debug, Clone)]
pub enum Entry {
    Deployment(RawDeployment),
    Method(RawMethod),
}

impl PartialEq for MethodIdentifier {
    fn eq(&self, other: &MethodIdentifier) -> (r: bool) {
        self.contract == other.contract && self.method == other.method
    }
}

impl vstd::std_specs::cmp::PartialEqSpecImpl for MethodIdentifier {
    open spec fn obeys_eq_spec() -> bool {
        true
    }

    open spec fn eq_spec(&self, other: &MethodIdentifier) -> bool {
        self.contract@ == other.contract@ && self.method@ == other.method@
    }
}

/// Method identifiers are ordered by contract, then by method name.
pub open spec fn identifier_cmp(a: MethodIdentifier, b: MethodIdentifier) -> Ordering {
    if a.contract@ == b.contract@ {
        lex_cmp(a.method@, b.method@)
    } else {
        lex_cmp(a.contract@, b.contract@)
    }
}

impl PartialOrd for MethodIdentifier {
    fn partial_cmp(&self, other: &MethodIdentifier) -> (r: Option<Ordering>) {
        if self.contract == other.contract {
            Some(compare_text(self.method.as_str(), other.method.as_str()))
        } else {
            Some(compare_text(self.contract.as_str(), other.contract.as_str()))
        }
    }
}

impl vstd::std_specs::cmp::PartialOrdSpecImpl for MethodIdentifier {
    open spec fn obeys_partial_cmp_spec() -> bool {
        true
    }

    open spec fn partial_cmp_spec(&self, other: &MethodIdentifier) -> Option<Ordering> {
        Some(identifier_cmp(*self, *other))
    }
}

/// Two entries are equal when they are of one kind and name the same
/// deployment or the same method.
pub open spec fn entry_eq(a: Entry, b: Entry) -> bool {
    match (a, b) {
        (Entry::Deployment(l), Entry::Deployment(r)) => l.name@ == r.name@,
        (Entry::Method(l), Entry::Method(r)) => l.method.contract@ == r.method.contract@
            && l.method.method@ == r.method.method@,
        _ => false,
    }
}

/// Methods come before deployments; deployments are ordered by name, methods
/// by method name alone.
pub open spec fn entry_cmp(a: Entry, b: Entry) -> Ordering {
    match (a, b) {
        (Entry::Deployment(l), Entry::Deployment(r)) => lex_cmp(l.name@, r.name@),
        (Entry::Deployment(_), Entry::Method(_)) => Ordering::Greater,
        (Entry::Method(_), Entry::Deployment(_)) => Ordering::Less,
        (Entry::Method(l), Entry::Method(r)) => lex_cmp(l.method.method@, r.method.method@),
    }
}

impl PartialEq for Entry {
    fn eq(&self, other: &Entry) -> (r: bool) {
        match (self, other) {
            (Entry::Deployment(l), Entry::Deployment(r)) => l.name == r.name,
            (Entry::Method(l), Entry::Method(r)) => l.method == r.method,
            _ => false,
        }
    }
}

impl vstd::std_specs::cmp::PartialEqSpecImpl for Entry {
    open spec fn obeys_eq_spec() -> bool {
        true
    }

    open spec fn eq_spec(&self, other: &Entry) -> bool {
        entry_eq(*self, *other)
    }
}

impl Eq for Entry {

}

impl PartialOrd for Entry {
    fn partial_cmp(&self, other: &Entry) -> (r: Option<Ordering>) {
        match (self, other) {
            (Entry::Deployment(l), Entry::Deployment(r)) => Some(
                compare_text(l.name.as_str(), r.name.as_str()),
            ),
            (Entry::Deployment(_), Entry::Method(_)) => Some(Ordering::Greater),
            (Entry::Method(_), Entry::Deployment(_)) => Some(Ordering::Less),
            (Entry::Method(l), Entry::Method(r)) => Some(
                compare_text(l.method.method.as_str(), r.method.method.as_str()),
            ),
        }
    }
}

impl vstd::std_specs::cmp::PartialOrdSpecImpl for Entry {
    open spec fn obeys_partial_cmp_spec() -> bool {
        true
    }

    open spec fn partial_cmp_spec(&self, other: &Entry) -> Option<Ordering> {
        Some(entry_cmp(*self, *other))
    }
}

/// The sum of a sequence of samples.
pub open spec fn sum(s: Seq<isize>) -> int
    decreases s.len(),
{
    if s.len() == 0 {
        0
    } else {
        sum(s.drop_last()) + s.last()
    }
}

/// Integer division rounding toward zero, as Rust's `/` does.
pub open spec fn trunc_div(a: int, b: int) -> int {
    if a >= 0 {
        a / b
    } else {
        -((-a) / b)
    }
}

/// The average of a non-empty sequence of samples, rounded toward zero.
pub open spec fn average(s: Seq<isize>) -> int {
    trunc_div(sum(s), s.len() as int)
}

proof fn lemma_quotient_bounds(a: int, n: int, lo: int, hi: int)
    requires
        n > 0,
        lo <= 0 <= hi,
        n * lo <= a <= n * hi,
    ensures
        lo <= trunc_div(a, n) <= hi,
{
    if a >= 0 {
        assert(a / n <= hi) by (nonlinear_arith)
            requires
                n > 0,
                0 <= a <= n * hi,
        ;
        assert(a / n >= 0) by (nonlinear_arith)
            requires
                n > 0,
                0 <= a,
        ;
    } else {
        assert((-a) / n <= -lo) by (nonlinear_arith)
            requires
                n > 0,
                a < 0,
                n * lo <= a,
        ;
        assert((-a) / n >= 0) by (nonlinear_arith)
            requires
                n > 0,
                0 <= -a,
        ;
    }
}

impl Entry {
    /// The gas samples of the entry.
    pub open spec fn gas(&self) -> Seq<isize> {
        match self {
            Entry::Deployment(d) => d.gas_data@,
            Entry::Method(m) => m.gas_data@,
        }
    }

    /// The average of the samples, rounded toward zero.
    pub fn avg_gas(&self) -> (r: isize)
        requires
            self.gas().len() > 0,
        ensures
            r == average(self.gas()),
    {
        let gas_data = self.gas_data();
        let n = gas_data.len();
        let mut acc: i128 = 0;
        let mut i: usize = 0;
        while i < n
            invariant
                n == gas_data@.len(),
                gas_data@ == self.gas(),
                i <= n,
                acc == sum(gas_data@.take(i as int)),
                (i as int) * (isize::MIN as int) <= acc <= (i as int) * (isize::MAX as int),
            decreases n - i,
        {
            assert(gas_data@.take(i as int + 1).drop_last() =~= gas_data@.take(i as int));
            acc = acc + gas_data[i] as i128;
            i = i + 1;
        }
        assert(gas_data@.take(n as int) =~= gas_data@);
        proof {
            lemma_quotient_bounds(acc as int, n as int, isize::MIN as int, isize::MAX as int);
        }
        let q: i128 = if acc >= 0 {
            acc / (n as i128)
        } else {
            -((-acc) / (n as i128))
        };
        q as isize
    }

    /// Whether the entry has at least one sample.
    pub fn has_gas_data(&self) -> (r: bool)
        ensures
            r == (self.gas().len() > 0),
    {
        self.gas_data().len() > 0
    }

    /// The gas samples of the entry.
    pub fn gas_data(&self) -> (r: &Vec<isize>)
        ensures
            r@ == self.gas(),
    {
        match self {
            Entry::Deployment(depl) => &depl.gas_data,
            Entry::Method(m) => &m.gas_data,
        }
    }
}

} // verus!
