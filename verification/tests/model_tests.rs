use convnext_trading::geometry::{conv1d_output_length, conv1d_output_shape, plan_stages, total_depth};
use convnext_trading::trading::{PositionSide, SignalKind};
use convnext_trading::VERSION;

#[test]
fn test_version() {
    assert!(!VERSION.is_empty());
}

#[test]
fn test_signal_direction() {
    assert_eq!(SignalKind::Long.direction(), 1);
    assert_eq!(SignalKind::Short.direction(), -1);
    assert_eq!(SignalKind::Hold.direction(), 0);
}

#[test]
fn signal_kind_predicates() {
    assert!(SignalKind::Long.is_long() && !SignalKind::Long.is_short() && !SignalKind::Long.is_hold());
    assert!(SignalKind::Short.is_short() && !SignalKind::Short.is_hold());
    assert!(SignalKind::Hold.is_hold() && !SignalKind::Hold.is_long());
    assert!(PositionSide::Long.is_open());
    assert!(PositionSide::Short.is_open());
    assert!(!PositionSide::Flat.is_open());
}

#[test]
fn test_conv1d() {
    // Conv1d::new(3, 6, 3, 1, 1, 1) on ones((2, 3, 10))
    assert_eq!(conv1d_output_shape((2, 3, 10), 6, 3, 1, 1), (2, 6, 10));
}

#[test]
fn test_depthwise_conv() {
    // Conv1d::depthwise(4, 7, 3) on ones((1, 4, 20))
    assert_eq!(conv1d_output_shape((1, 4, 20), 4, 7, 1, 3), (1, 4, 20));
}

#[test]
fn test_stem() {
    // Stem::new(20, 96, 4) on ones((2, 20, 256))
    assert_eq!(conv1d_output_shape((2, 20, 256), 96, 4, 4, 0), (2, 96, 64));
}

#[test]
fn test_downsample() {
    // Downsample::new(64, 128) on ones((2, 64, 32))
    assert_eq!(conv1d_output_shape((2, 64, 32), 128, 2, 2, 0), (2, 128, 16));
}

#[test]
fn test_convnext_block() {
    // ConvNeXtBlock::new(64, ..) on ones((2, 64, 32)): depthwise 7-tap, then two pointwise
    let dw = conv1d_output_shape((2, 64, 32), 64, 7, 1, 3);
    let pw1 = conv1d_output_shape(dw, 256, 1, 1, 0);
    let pw2 = conv1d_output_shape(pw1, 64, 1, 1, 0);
    assert_eq!(pw2, (2, 64, 32));
}

#[test]
fn conv_output_length_values() {
    assert_eq!(conv1d_output_length(10, 3, 1, 1), 10);
    assert_eq!(conv1d_output_length(7, 2, 2, 0), 3);
    assert_eq!(conv1d_output_length(255, 4, 4, 0), 63);
    assert_eq!(conv1d_output_length(5, 5, 1, 0), 1);
}

#[test]
fn plan_of_tiny_network() {
    let plan = plan_stages(&vec![96, 192, 384, 768], &vec![3, 3, 9, 3]).unwrap();
    assert_eq!(plan.total_depth, 18);
    assert_eq!(plan.stages.len(), 4);
    let firsts: Vec<usize> = plan.stages.iter().map(|s| s.first_block).collect();
    assert_eq!(firsts, vec![0, 3, 6, 15]);
    assert_eq!(plan.stages[0].downsample_from, None);
    assert_eq!(plan.stages[2].downsample_from, Some(192));
    assert_eq!(plan.stages[3].dim, 768);
    assert_eq!(plan.stages[2].depth, 9);
}

#[test]
fn plan_counts_every_depth() {
    // depths beyond the number of stages still count toward the total
    let plan = plan_stages(&vec![8], &vec![2, 5]).unwrap();
    assert_eq!(plan.total_depth, 7);
    assert_eq!(plan.stages.len(), 1);
}

#[test]
fn depth_overflow_is_reported() {
    assert_eq!(total_depth(&vec![usize::MAX, 1]), None);
    assert!(plan_stages(&vec![1], &vec![usize::MAX, 1]).is_none());
    assert_eq!(total_depth(&vec![3, 3, 27, 3]), Some(36));
    assert_eq!(total_depth(&vec![]), Some(0));
}

#[test]
fn layer_length_laws_on_values() {
    for length in 1..50usize {
        // a ConvNeXt block keeps the length
        assert_eq!(conv1d_output_length(length, 7, 1, 3), length);
        assert_eq!(conv1d_output_length(length, 1, 1, 0), length);
        if length >= 2 {
            // downsampling halves it
            assert_eq!(conv1d_output_length(length, 2, 2, 0), length / 2);
        }
        for patch in 1..=length.min(8) {
            // the stem divides it by the patch size
            assert_eq!(conv1d_output_length(length, patch, patch, 0), length / patch);
        }
    }
}
