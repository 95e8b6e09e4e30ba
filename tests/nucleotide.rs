use labyrinth::nucleotide::{counts, dna_complement, reverse_rna_complement};

#[test]
fn test_test_basic() {
    let input: Vec<char> = "TGAC".chars().collect();
    let counter = counts(&input);

    assert_eq!(counter.g, 1);
    assert_eq!(counter.c, 1);
    assert_eq!(counter.a, 1);
    assert_eq!(counter.t, 1);

    assert_eq!(dna_complement(&input), vec!['A', 'C', 'T', 'G']);
    assert_eq!(reverse_rna_complement(&input), vec!['G', 'U', 'C', 'A'])
}

#[test]
fn counts_repeated_nucleotides() {
    let input: Vec<char> = "AAGCTTTA".chars().collect();
    let counter = counts(&input);
    assert_eq!((counter.a, counter.c, counter.g, counter.t), (3, 1, 1, 3));
}

#[test]
fn empty_strand() {
    let counter = counts(&[]);
    assert_eq!((counter.a, counter.c, counter.g, counter.t), (0, 0, 0, 0));
    assert!(dna_complement(&[]).is_empty());
    assert!(reverse_rna_complement(&[]).is_empty());
}

#[test]
fn complements_of_a_longer_strand() {
    let input: Vec<char> = "AACGT".chars().collect();
    assert_eq!(dna_complement(&input), vec!['T', 'T', 'G', 'C', 'A']);
    assert_eq!(reverse_rna_complement(&input), vec!['A', 'C', 'G', 'U', 'U']);
}
