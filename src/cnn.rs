//! The stage table of the cats-and-dogs convolutional network.
//!
//! Each of the four convolutional layers runs through the same stages:
//! allocating the im2col workspace, filling it, the convolution in batches
//! of columns, bias and ReLU in batches of filters, batch normalisation in
//! batches of channels, reshaping and max pooling. Flattening and two dense
//! layers follow. The layer index is carried beside the stage kind.
use vstd::prelude::*;
use crate::pipeline::{StageKind, StagePlan};

verus! {

/// Batch sizes for the batched stages of each convolutional layer.
#[derive(Clone, Copy, Debug, PartialEq, Eq, Structural, Default)]
pub struct Config {
    pub conv_1_batch_size: u16,
    pub conv_2_batch_size: u16,
    pub conv_3_batch_size: u16,
    pub conv_4_batch_size: u16,
    pub bias_1_batch_size: u16,
    pub bias_2_batch_size: u16,
    pub bias_3_batch_size: u16,
    pub bias_4_batch_size: u16,
    pub norm_1_batch_size: u16,
    pub norm_2_batch_size: u16,
    pub norm_3_batch_size: u16,
    pub norm_4_batch_size: u16,
}

/// Output columns of each convolutional layer (output height times width):
/// 126 x 126, 61 x 61, 28 x 28 and 12 x 12.
pub const CONV_1_COLUMNS: u32 = 15876;
pub const CONV_2_COLUMNS: u32 = 3721;
pub const CONV_3_COLUMNS: u32 = 784;
pub const CONV_4_COLUMNS: u32 = 144;

/// Filters of each convolutional layer.
pub const CONV_1_FILTERS: u32 = 32;
pub const CONV_2_FILTERS: u32 = 64;
pub const CONV_3_FILTERS: u32 = 96;
pub const CONV_4_FILTERS: u32 = 192;

/// A stage that runs in a single invocation.
pub open spec fn single(kind: StageKind, layer: u8) -> StagePlan {
    StagePlan { kind, layer, total: 1, batch_limit: 1 }
}

/// The stages of one convolutional layer with `columns` output columns and
/// `filters` filters.
pub open spec fn layer_stages(layer: u8, columns: u32, filters: u32, conv: u16, bias: u16, norm: u16) -> Seq<
    StagePlan,
> {
    seq![
        single(StageKind::AllocateIm2Col, layer),
        single(StageKind::Im2Col, layer),
        StagePlan { kind: StageKind::Convolve, layer, total: columns, batch_limit: conv as u32 },
        StagePlan { kind: StageKind::AddBiasAndRelu, layer, total: filters, batch_limit: bias as u32 },
        StagePlan { kind: StageKind::Normalize, layer, total: filters, batch_limit: norm as u32 },
        single(StageKind::Reshape, layer),
        single(StageKind::MaxPool, layer),
    ]
}

/// The whole network: four convolutional layers, flattening, and the two
/// dense layers (layers 5 and 6).
pub open spec fn network_stages(c: Config) -> Seq<StagePlan> {
    layer_stages(1, CONV_1_COLUMNS, CONV_1_FILTERS, c.conv_1_batch_size, c.bias_1_batch_size, c.norm_1_batch_size)
        + layer_stages(2, CONV_2_COLUMNS, CONV_2_FILTERS, c.conv_2_batch_size, c.bias_2_batch_size, c.norm_2_batch_size)
        + layer_stages(3, CONV_3_COLUMNS, CONV_3_FILTERS, c.conv_3_batch_size, c.bias_3_batch_size, c.norm_3_batch_size)
        + layer_stages(4, CONV_4_COLUMNS, CONV_4_FILTERS, c.conv_4_batch_size, c.bias_4_batch_size, c.norm_4_batch_size)
        + seq![
        single(StageKind::Flatten, 5),
        single(StageKind::DenseApply, 5),
        single(StageKind::DenseApply, 6),
    ]
}

/// The stage order of the network: layer `L` occupies stages `7 * (L - 1)`
/// to `7 * L - 1` in the order of `layer_stages`, so that the convolution of
/// a layer is followed by its bias stage and its pooling by the next layer's
/// workspace allocation; after the fourth layer come flattening and the two
/// dense layers.
pub proof fn lemma_network_order(c: Config)
    ensures
        network_stages(c).len() == 31,
        network_stages(c).subrange(0, 7) == layer_stages(1, CONV_1_COLUMNS, CONV_1_FILTERS, c.conv_1_batch_size, c.bias_1_batch_size, c.norm_1_batch_size),
        network_stages(c).subrange(7, 14) == layer_stages(2, CONV_2_COLUMNS, CONV_2_FILTERS, c.conv_2_batch_size, c.bias_2_batch_size, c.norm_2_batch_size),
        network_stages(c).subrange(14, 21) == layer_stages(3, CONV_3_COLUMNS, CONV_3_FILTERS, c.conv_3_batch_size, c.bias_3_batch_size, c.norm_3_batch_size),
        network_stages(c).subrange(21, 28) == layer_stages(4, CONV_4_COLUMNS, CONV_4_FILTERS, c.conv_4_batch_size, c.bias_4_batch_size, c.norm_4_batch_size),
        network_stages(c)[28] == single(StageKind::Flatten, 5),
        network_stages(c)[29] == single(StageKind::DenseApply, 5),
        network_stages(c)[30] == single(StageKind::DenseApply, 6),
{
    let st = network_stages(c);
    assert(st.subrange(0, 7) =~= layer_stages(1, CONV_1_COLUMNS, CONV_1_FILTERS, c.conv_1_batch_size, c.bias_1_batch_size, c.norm_1_batch_size));
    assert(st.subrange(7, 14) =~= layer_stages(2, CONV_2_COLUMNS, CONV_2_FILTERS, c.conv_2_batch_size, c.bias_2_batch_size, c.norm_2_batch_size));
    assert(st.subrange(14, 21) =~= layer_stages(3, CONV_3_COLUMNS, CONV_3_FILTERS, c.conv_3_batch_size, c.bias_3_batch_size, c.norm_3_batch_size));
    assert(st.subrange(21, 28) =~= layer_stages(4, CONV_4_COLUMNS, CONV_4_FILTERS, c.conv_4_batch_size, c.bias_4_batch_size, c.norm_4_batch_size));
}

fn push_layer(stages: &mut Vec<StagePlan>, layer: u8, columns: u32, filters: u32, conv: u16, bias: u16, norm: u16)
    ensures
        final(stages)@ == old(stages)@ + layer_stages(layer, columns, filters, conv, bias, norm),
{
    stages.push(StagePlan { kind: StageKind::AllocateIm2Col, layer, total: 1, batch_limit: 1 });
    stages.push(StagePlan { kind: StageKind::Im2Col, layer, total: 1, batch_limit: 1 });
    stages.push(StagePlan { kind: StageKind::Convolve, layer, total: columns, batch_limit: conv as u32 });
    stages.push(StagePlan { kind: StageKind::AddBiasAndRelu, layer, total: filters, batch_limit: bias as u32 });
    stages.push(StagePlan { kind: StageKind::Normalize, layer, total: filters, batch_limit: norm as u32 });
    stages.push(StagePlan { kind: StageKind::Reshape, layer, total: 1, batch_limit: 1 });
    stages.push(StagePlan { kind: StageKind::MaxPool, layer, total: 1, batch_limit: 1 });
    assert(final(stages)@ =~= old(stages)@ + layer_stages(layer, columns, filters, conv, bias, norm));
}

/// The stage table of the network for the batch sizes of `config`.
pub fn network_plan(config: &Config) -> (r: Vec<StagePlan>)
    ensures
        r@ == network_stages(*config),
{
    let c = *config;
    let mut stages: Vec<StagePlan> = Vec::new();
    push_layer(&mut stages, 1, CONV_1_COLUMNS, CONV_1_FILTERS, c.conv_1_batch_size, c.bias_1_batch_size, c.norm_1_batch_size);
    push_layer(&mut stages, 2, CONV_2_COLUMNS, CONV_2_FILTERS, c.conv_2_batch_size, c.bias_2_batch_size, c.norm_2_batch_size);
    push_layer(&mut stages, 3, CONV_3_COLUMNS, CONV_3_FILTERS, c.conv_3_batch_size, c.bias_3_batch_size, c.norm_3_batch_size);
    push_layer(&mut stages, 4, CONV_4_COLUMNS, CONV_4_FILTERS, c.conv_4_batch_size, c.bias_4_batch_size, c.norm_4_batch_size);
    stages.push(StagePlan { kind: StageKind::Flatten, layer: 5, total: 1, batch_limit: 1 });
    stages.push(StagePlan { kind: StageKind::DenseApply, layer: 5, total: 1, batch_limit: 1 });
    stages.push(StagePlan { kind: StageKind::DenseApply, layer: 6, total: 1, batch_limit: 1 });
    assert(stages@ =~= network_stages(c));
    stages
}

} // verus!
