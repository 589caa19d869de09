use mt63::encoding::augmented_hadamard_matrix;

#[test]
fn hadamard_rows() {
    let hadamard = augmented_hadamard_matrix();
    let row_0 = hadamard[0];
    assert_eq!(row_0, u64::MAX);
    let row_1 = hadamard[1];
    assert_eq!(row_1, 0xaaaa_aaaa_aaaa_aaaa);
}

#[test]
fn hadamard_rows_and() {
    let hadamard = augmented_hadamard_matrix();
    for (index, row) in hadamard.iter().enumerate() {
        for (other_index, other_row) in hadamard.iter().enumerate() {
            let bits = *row ^ *other_row;
            if index == other_index {
                assert_eq!(bits.count_ones(), 0)
            } else {
                assert!(
                    bits.count_ones() >= 32,
                    "Got {} set bits at index {index}, other index {other_index}",
                    bits.count_ones()
                );
            }
        }
    }
}

#[test]
fn hadamard_row_count() {
    let hadamard = augmented_hadamard_matrix();
    assert_eq!(hadamard.len(), 128);
}

#[test]
fn hadamard_lower_half_complemented() {
    let hadamard = augmented_hadamard_matrix();
    for i in 0..64 {
        assert_eq!(hadamard[i], !hadamard[i + 64]);
    }
}
