use metaparse::array_dtypes::{dense_linear_idx, dtype_to_numpy_descr_for_stats};
use metaparse::tensor3d::{
    contiguous_3d_stack_axis, dim_at, evenly_spaced_indices, is_little_endian_descr, plane_index,
    stack_axis_preferred, unravel_c_3d, unravel_col_maj_3d,
};

#[test]
fn tensor3d_stack_axis() {
    assert_eq!(contiguous_3d_stack_axis(false), 0);
    assert_eq!(contiguous_3d_stack_axis(true), 2);
    assert_eq!(stack_axis_preferred(4, 4, 4, true), 2);
    assert_eq!(stack_axis_preferred(4, 4, 4, false), 0);
    assert_eq!(stack_axis_preferred(5, 2, 9, false), 1);
    assert_eq!(stack_axis_preferred(5, 9, 2, true), 2);
    assert_eq!(stack_axis_preferred(3, 3, 7, true), 0);
    assert_eq!(stack_axis_preferred(7, 3, 3, false), 1);
    assert_eq!(dim_at(1, 2, 3, 7), 3);
    assert_eq!(plane_index((4, 5, 6), 1), 5);
}

#[test]
fn tensor3d_evenly_spaced() {
    assert_eq!(evenly_spaced_indices(0, 5), Vec::<usize>::new());
    assert_eq!(evenly_spaced_indices(3, 5), vec![0, 1, 2]);
    assert_eq!(evenly_spaced_indices(10, 4), vec![0, 3, 6, 9]);
    assert_eq!(evenly_spaced_indices(10, 1), vec![0]);
    assert_eq!(evenly_spaced_indices(10, 0), vec![0]);
}

#[test]
fn tensor3d_unravel() {
    assert_eq!(unravel_c_3d(23, 2, 3, 4), (1, 2, 3));
    assert_eq!(unravel_c_3d(5, 2, 3, 4), (0, 1, 1));
    assert_eq!(unravel_col_maj_3d(23, 2, 3), (1, 2, 3));
    assert_eq!(unravel_col_maj_3d(7, 2, 3), (1, 0, 1));
}

#[test]
fn tensor3d_byte_order() {
    assert!(is_little_endian_descr("<f8"));
    assert!(is_little_endian_descr("|u1"));
    assert!(!is_little_endian_descr("  >i4"));
}

#[test]
fn array_dtype_labels_to_numpy() {
    assert_eq!(dtype_to_numpy_descr_for_stats("float64"), Some("<f8"));
    assert_eq!(dtype_to_numpy_descr_for_stats("DataType::Float32"), None);
    assert_eq!(dtype_to_numpy_descr_for_stats("float32"), Some("<f4"));
    assert_eq!(dtype_to_numpy_descr_for_stats("int64"), Some("<i8"));
    assert_eq!(dtype_to_numpy_descr_for_stats("uint64"), None);
    assert_eq!(dtype_to_numpy_descr_for_stats("uint32"), Some("<i4"));
    assert_eq!(dtype_to_numpy_descr_for_stats("uint8"), Some("<u1"));
    assert_eq!(dtype_to_numpy_descr_for_stats("int8"), Some("<i1"));
    assert_eq!(dtype_to_numpy_descr_for_stats("bool"), Some("?"));
    assert_eq!(dtype_to_numpy_descr_for_stats("string"), None);
    assert_eq!(dense_linear_idx(2, 3, 4), 14);
}
