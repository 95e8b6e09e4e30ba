use vstd::prelude::*;

verus! {

/// How many times each nucleotide occurs in a DNA strand.
#[derive(Debug)]
pub struct NucleotideCounter {
    pub a: usize,
    pub c: usize,
    pub g: usize,
    pub t: usize,
}

/// One of the four DNA nucleotides `A`, `C`, `G`, `T`.
pub open spec fn is_nucleotide(x: char) -> bool {
    x == 'A' || x == 'C' || x == 'G' || x == 'T'
}

pub open spec fn is_strand(s: Seq<char>) -> bool {
    forall|i: int| 0 <= i < s.len() ==> is_nucleotide(#[trigger] s[i])
}

/// The number of occurrences of `x` in `s`.
pub open spec fn occurrences(s: Seq<char>, x: char) -> nat
    decreases s.len(),
{
    if s.len() == 0 {
        0
    } else {
        occurrences(s.drop_last(), x) + if s.last() == x {
            1nat
        } else {
            0nat
        }
    }
}

/// The DNA nucleotide paired with `x`.
pub open spec fn dna_pair(x: char) -> char {
    if x == 'A' {
        'T'
    } else if x == 'C' {
        'G'
    } else if x == 'G' {
        'C'
    } else {
        'A'
    }
}

/// The RNA nucleotide paired with the DNA nucleotide `x`.
pub open spec fn rna_pair(x: char) -> char {
    if x == 'A' {
        'U'
    } else if x == 'C' {
        'G'
    } else if x == 'G' {
        'C'
    } else {
        'A'
    }
}

proof fn lemma_occurrences_bound(s: Seq<char>, x: char)
    ensures
        occurrences(s, x) <= s.len(),
    decreases s.len(),
{
    if s.len() > 0 {
        lemma_occurrences_bound(s.drop_last(), x);
    }
}

/// Counts the nucleotides of a strand.
pub fn counts(dna: &[char]) -> (r: NucleotideCounter)
    requires
        is_strand(dna@),
    ensures
        r.a == occurrences(dna@, 'A'),
        r.c == occurrences(dna@, 'C'),
        r.g == occurrences(dna@, 'G'),
        r.t == occurrences(dna@, 'T'),
{
    let mut result = NucleotideCounter { a: 0, c: 0, g: 0, t: 0 };
    let mut i: usize = 0;
    while i < dna.len()
        invariant
            i <= dna@.len(),
            is_strand(dna@),
            result.a == occurrences(dna@.subrange(0, i as int), 'A'),
            result.c == occurrences(dna@.subrange(0, i as int), 'C'),
            result.g == occurrences(dna@.subrange(0, i as int), 'G'),
            result.t == occurrences(dna@.subrange(0, i as int), 'T'),
        decreases dna@.len() - i,
    {
        let ghost next = dna@.subrange(0, i + 1);
        proof {
            assert(next.drop_last() =~= dna@.subrange(0, i as int));
            lemma_occurrences_bound(dna@.subrange(0, i as int), 'A');
            lemma_occurrences_bound(dna@.subrange(0, i as int), 'C');
            lemma_occurrences_bound(dna@.subrange(0, i as int), 'G');
            lemma_occurrences_bound(dna@.subrange(0, i as int), 'T');
            assert(is_nucleotide(dna@[i as int]));
        }
        let x = dna[i];
        if x == 'A' {
            result.a = result.a + 1;
        } else if x == 'C' {
            result.c = result.c + 1;
        } else if x == 'G' {
            result.g = result.g + 1;
        } else {
            result.t = result.t + 1;
        }
        i = i + 1;
    }
    assert(dna@.subrange(0, dna@.len() as int) =~= dna@);
    result
}

/// The complementary DNA strand.
pub fn dna_complement(dna: &[char]) -> (r: Vec<char>)
    requires
        is_strand(dna@),
    ensures
        r@.len() == dna@.len(),
        forall|i: int| 0 <= i < dna@.len() ==> r@[i] == dna_pair(#[trigger] dna@[i]),
{
    let mut result: Vec<char> = Vec::with_capacity(dna.len());
    let mut i: usize = 0;
    while i < dna.len()
        invariant
            i <= dna@.len(),
            result@.len() == i,
            forall|j: int| 0 <= j < i ==> result@[j] == dna_pair(#[trigger] dna@[j]),
        decreases dna@.len() - i,
    {
        let x = dna[i];
        let y = if x == 'A' {
            'T'
        } else if x == 'C' {
            'G'
        } else if x == 'G' {
            'C'
        } else {
            'A'
        };
        result.push(y);
        i = i + 1;
    }
    result
}

/// The RNA strand complementary to the DNA strand read backwards.
pub fn reverse_rna_complement(dna: &[char]) -> (r: Vec<char>)
    requires
        is_strand(dna@),
    ensures
        r@.len() == dna@.len(),
        forall|i: int| 0 <= i < dna@.len() ==> r@[i] == rna_pair(#[trigger] dna@[dna@.len() - 1 - i]),
{
    let n = dna.len();
    let mut result: Vec<char> = Vec::with_capacity(n);
    let mut i: usize = 0;
    while i < n
        invariant
            n == dna@.len(),
            i <= n,
            result@.len() == i,
            forall|j: int| 0 <= j < i ==> result@[j] == rna_pair(#[trigger] dna@[n - 1 - j]),
        decreases n - i,
    {
        let x = dna[n - 1 - i];
        let y = if x == 'A' {
            'U'
        } else if x == 'C' {
            'G'
        } else if x == 'G' {
            'C'
        } else {
            'A'
        };
        result.push(y);
        i = i + 1;
    }
    result
}

} // verus!
