//! Configuration builders for the inference engine's layers.
//!
//! The layers themselves — convolutions, batch normalisation, activations —
//! are the outside engine's; what is kept here is the plain arithmetic of
//! their shapes: defaults, the kernel-size rule that drops padding for 1x1
//! kernels, and the derived quantities of an inverted-residual block.

use vstd::prelude::*;

verus! {

/// Shape of a convolution-normalisation-activation layer.
pub struct Conv2dNormActivationConfig {
    /// Input channel count.
    pub in_channels: usize,
    /// Output channel count.
    pub out_channels: usize,
    /// Side of the square kernel.
    pub kernel_size: usize,
    /// Stride in both directions.
    pub stride: usize,
    /// Padding in both directions.
    pub padding: usize,
    /// Dilation in both directions.
    pub dilation: usize,
    /// Number of blocked connection groups.
    pub groups: usize,
}

impl Conv2dNormActivationConfig {
    /// A layer shape with the default 3x3 kernel, unit stride, padding,
    /// dilation and a single group.
    pub fn new(in_channels: usize, out_channels: usize) -> (r: Self)
        ensures
            r.in_channels == in_channels,
            r.out_channels == out_channels,
            r.kernel_size == 3,
            r.stride == 1,
            r.padding == 1,
            r.dilation == 1,
            r.groups == 1,
    {
        Conv2dNormActivationConfig {
            in_channels,
            out_channels,
            kernel_size: 3,
            stride: 1,
            padding: 1,
            dilation: 1,
            groups: 1,
        }
    }

    /// Sets the kernel size; a 1x1 kernel needs no padding, so padding drops
    /// to zero exactly then.
    pub fn with_kernel_size(self, kernel_size: usize) -> (r: Self)
        ensures
            r.kernel_size == kernel_size,
            r.padding == if kernel_size == 1 {
                0int
            } else {
                self.padding as int
            },
            r.in_channels == self.in_channels,
            r.out_channels == self.out_channels,
            r.stride == self.stride,
            r.dilation == self.dilation,
            r.groups == self.groups,
    {
        let mut c = self;
        c.kernel_size = kernel_size;
        if kernel_size == 1 {
            c.padding = 0;
        }
        c
    }

    /// Sets the stride.
    pub fn with_stride(self, stride: usize) -> (r: Self)
        ensures
            r == (Self { stride, ..self }),
    {
        let mut c = self;
        c.stride = stride;
        c
    }

    /// Sets the number of groups.
    pub fn with_groups(self, groups: usize) -> (r: Self)
        ensures
            r == (Self { groups, ..self }),
    {
        let mut c = self;
        c.groups = groups;
        c
    }
}

/// Shape of an inverted-residual block.
pub struct InvertedResidualConfig {
    /// Input channel count.
    pub inp: usize,
    /// Output channel count.
    pub oup: usize,
    /// Stride of the depthwise stage.
    pub stride: usize,
    /// Expansion ratio of the pointwise stage.
    pub expand_ratio: usize,
}

impl InvertedResidualConfig {
    /// A block shape from its four raw quantities.
    pub fn new(inp: usize, oup: usize, stride: usize, expand_ratio: usize) -> (r: Self)
        ensures
            r.inp == inp,
            r.oup == oup,
            r.stride == stride,
            r.expand_ratio == expand_ratio,
    {
        InvertedResidualConfig { inp, oup, stride, expand_ratio }
    }

    /// Whether the block keeps a residual connection: unit stride and equal
    /// channel counts.
    pub fn use_res_connect(&self) -> (r: bool)
        ensures
            r == (self.stride == 1 && self.inp == self.oup),
    {
        self.stride == 1 && self.inp == self.oup
    }

    /// The hidden dimension of the expanded stage.
    pub fn hidden_dim(&self) -> (r: usize)
        requires
            self.inp * self.expand_ratio <= usize::MAX,
        ensures
            r == self.inp * self.expand_ratio,
    {
        self.inp * self.expand_ratio
    }
}

} // verus!
