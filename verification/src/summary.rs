//! What a model looks like from outside: its input, its output, its size.

use vstd::prelude::*;

use crate::model::{layer_views, ExecInfo, ExecView, LayerInfo, LayerView, TfliteModel};
use crate::runner::{layer_size, layers_size, total_size};
use crate::text::{decimal, numeral, push_decimal};

verus! {

/// The bits of the single-precision number one.
pub const ONE_BITS: u32 = 0x3f80_0000;

/// The input layers of all executables, in order.
pub open spec fn all_inputs(execs: Seq<ExecView>) -> Seq<LayerView>
    decreases execs.len(),
{
    if execs.len() == 0 {
        Seq::empty()
    } else {
        all_inputs(execs.drop_last()) + execs.last().input_layers
    }
}

/// The output layers of all executables, in order.
pub open spec fn all_outputs(execs: Seq<ExecView>) -> Seq<LayerView>
    decreases execs.len(),
{
    if execs.len() == 0 {
        Seq::empty()
    } else {
        all_outputs(execs.drop_last()) + execs.last().output_layers
    }
}

/// The first layer of a list, if it has one.
pub open spec fn first_layer(layers: Seq<LayerView>) -> Option<LayerView> {
    if layers.len() == 0 {
        None
    } else {
        Some(layers[0])
    }
}

/// What comes first stays first when executables are added.
proof fn lemma_first_stays(execs: Seq<ExecView>, n: int)
    requires
        0 <= n <= execs.len(),
    ensures
        all_inputs(execs.take(n)).len() > 0 ==> first_layer(all_inputs(execs)) == first_layer(
            all_inputs(execs.take(n)),
        ),
        all_outputs(execs.take(n)).len() > 0 ==> first_layer(all_outputs(execs)) == first_layer(
            all_outputs(execs.take(n)),
        ),
        total_size(all_outputs(execs.take(n))) <= total_size(all_outputs(execs)),
    decreases execs.len() - n,
{
    if n == execs.len() {
        assert(execs.take(n) =~= execs);
    } else {
        lemma_first_stays(execs, n + 1);
        assert(execs.take(n + 1).drop_last() =~= execs.take(n));
        lemma_total_of_both(all_outputs(execs.take(n)), execs[n].output_layers);
    }
}

/// The size of two lists of layers together is the sum of their sizes.
proof fn lemma_total_of_both(a: Seq<LayerView>, b: Seq<LayerView>)
    ensures
        total_size(a + b) == total_size(a) + total_size(b),
    decreases b.len(),
{
    if b.len() == 0 {
        assert(a + b =~= a);
    } else {
        lemma_total_of_both(a, b.drop_last());
        assert((a + b).drop_last() =~= a + b.drop_last());
    }
}

/// The text that describes a model with some input and output sizes and number
/// of executables.
pub open spec fn repr_text(input: nat, output: nat, executables: nat) -> Seq<char> {
    "Model(input="@ + decimal(input) + "B, output="@ + decimal(output) + "B, executables="@
        + decimal(executables) + ")"@
}

impl TfliteModel {
    /// The first input layer.
    pub fn first_input_layer(&self) -> (r: Option<&LayerInfo>)
        ensures
            match r {
                Some(l) => first_layer(all_inputs(self@)) == Some(l@),
                None => all_inputs(self@).len() == 0,
            },
    {
        let ghost execs = self@;
        let mut i: usize = 0;
        assert(execs.take(0) =~= Seq::empty());
        while i < self.executables.len()
            invariant
                i <= self.executables@.len(),
                execs == self@,
                all_inputs(execs.take(i as int)).len() == 0,
            decreases self.executables@.len() - i,
        {
            let exec: &ExecInfo = &self.executables[i];
            assert(execs[i as int] == exec@);
            assert(execs.take(i + 1).drop_last() =~= execs.take(i as int));
            assert(execs.take(i + 1).last() == exec@);
            if exec.input_layers.len() > 0 {
                proof {
                    lemma_first_stays(execs, i + 1);
                    assert(exec@.input_layers[0] == exec.input_layers@[0]@);
                }
                return Some(&exec.input_layers[0]);
            }
            i = i + 1;
        }
        assert(execs.take(i as int) =~= execs);
        None
    }

    /// The first output layer.
    pub fn first_output_layer(&self) -> (r: Option<&LayerInfo>)
        ensures
            match r {
                Some(l) => first_layer(all_outputs(self@)) == Some(l@),
                None => all_outputs(self@).len() == 0,
            },
    {
        let ghost execs = self@;
        let mut i: usize = 0;
        assert(execs.take(0) =~= Seq::empty());
        while i < self.executables.len()
            invariant
                i <= self.executables@.len(),
                execs == self@,
                all_outputs(execs.take(i as int)).len() == 0,
            decreases self.executables@.len() - i,
        {
            let exec: &ExecInfo = &self.executables[i];
            assert(execs[i as int] == exec@);
            assert(execs.take(i + 1).drop_last() =~= execs.take(i as int));
            assert(execs.take(i + 1).last() == exec@);
            if exec.output_layers.len() > 0 {
                proof {
                    lemma_first_stays(execs, i + 1);
                    assert(exec@.output_layers[0] == exec.output_layers@[0]@);
                }
                return Some(&exec.output_layers[0]);
            }
            i = i + 1;
        }
        assert(execs.take(i as int) =~= execs);
        None
    }

    /// The number of input bytes that the model expects: the size of its first
    /// input layer, or zero if it has none.
    pub fn input_size(&self) -> (r: usize)
        ensures
            r == match first_layer(all_inputs(self@)) {
                Some(l) => layer_size(l),
                None => 0,
            },
    {
        match self.first_input_layer() {
            Some(l) => l.size(),
            None => 0,
        }
    }

    /// The number of output bytes that the model produces, over all its output
    /// layers; `None` if it exceeds `usize`.
    pub fn output_size(&self) -> (r: Option<usize>)
        ensures
            match r {
                Some(total) => total == total_size(all_outputs(self@)),
                None => total_size(all_outputs(self@)) > usize::MAX,
            },
    {
        let ghost execs = self@;
        let mut total: usize = 0;
        let mut i: usize = 0;
        assert(execs.take(0) =~= Seq::empty());
        while i < self.executables.len()
            invariant
                i <= self.executables@.len(),
                execs == self@,
                total == total_size(all_outputs(execs.take(i as int))),
            decreases self.executables@.len() - i,
        {
            let exec: &ExecInfo = &self.executables[i];
            proof {
                assert(execs[i as int] == exec@);
                assert(execs.take(i + 1).drop_last() =~= execs.take(i as int));
                assert(execs.take(i + 1).last() == exec@);
                assert(exec@.output_layers =~= layer_views(exec.output_layers@));
                lemma_total_of_both(all_outputs(execs.take(i as int)), exec@.output_layers);
                lemma_first_stays(execs, i + 1);
            }
            let size: usize = match layers_size(&exec.output_layers) {
                Some(size) => size,
                None => {
                    return None;
                },
            };
            match total.checked_add(size) {
                Some(sum) => {
                    total = sum;
                },
                None => {
                    return None;
                },
            }
            i = i + 1;
        }
        assert(execs.take(i as int) =~= execs);
        Some(total)
    }

    /// The zero point of the first input layer, or zero if there is none.
    pub fn input_zero_point(&self) -> (r: i32)
        ensures
            r == match first_layer(all_inputs(self@)) {
                Some(l) => l.zero_point,
                None => 0,
            },
    {
        match self.first_input_layer() {
            Some(l) => l.zero_point,
            None => 0,
        }
    }

    /// The scale of the first input layer, or one if there is none, as the bits
    /// of a single-precision number.
    pub fn input_scale(&self) -> (r: u32)
        ensures
            r == match first_layer(all_inputs(self@)) {
                Some(l) => l.dequantization_bits,
                None => ONE_BITS,
            },
    {
        match self.first_input_layer() {
            Some(l) => l.dequantization_bits,
            None => ONE_BITS,
        }
    }

    /// The zero point of the first output layer, or zero if there is none.
    pub fn output_zero_point(&self) -> (r: i32)
        ensures
            r == match first_layer(all_outputs(self@)) {
                Some(l) => l.zero_point,
                None => 0,
            },
    {
        match self.first_output_layer() {
            Some(l) => l.zero_point,
            None => 0,
        }
    }

    /// The scale of the first output layer, or one if there is none, as the
    /// bits of a single-precision number.
    pub fn output_scale(&self) -> (r: u32)
        ensures
            r == match first_layer(all_outputs(self@)) {
                Some(l) => l.dequantization_bits,
                None => ONE_BITS,
            },
    {
        match self.first_output_layer() {
            Some(l) => l.dequantization_bits,
            None => ONE_BITS,
        }
    }

    /// A short description; `None` if the output size exceeds `usize`.
    pub fn repr(&self) -> (r: Option<String>)
        ensures
            match r {
                Some(text) => {
                    &&& total_size(all_outputs(self@)) <= usize::MAX
                    &&& text@ == repr_text(
                        match first_layer(all_inputs(self@)) {
                            Some(l) => layer_size(l),
                            None => 0,
                        },
                        total_size(all_outputs(self@)),
                        self@.len(),
                    )
                },
                None => total_size(all_outputs(self@)) > usize::MAX,
            },
    {
        let output: usize = match self.output_size() {
            Some(total) => total,
            None => {
                return None;
            },
        };
        let mut r = "Model(input=".to_string();
        push_decimal(&mut r, self.input_size() as u64);
        r.append("B, output=");
        push_decimal(&mut r, output as u64);
        r.append("B, executables=");
        push_decimal(&mut r, self.executables.len() as u64);
        r.append(")");
        Some(r)
    }

    /// The input to use when none is given: ones, as many as the first input
    /// layer has bytes, or eight if there is none.
    pub fn default_input(&self) -> (r: Vec<u8>)
        requires
            first_layer(all_inputs(self@)) matches Some(l) ==> layer_size(l) <= isize::MAX,
        ensures
            r@ == Seq::new(
                match first_layer(all_inputs(self@)) {
                    Some(l) => layer_size(l),
                    None => 8,
                },
                |i: int| 1u8,
            ),
    {
        let n: usize = match self.first_input_layer() {
            Some(l) => l.size(),
            None => 8,
        };
        let r: Vec<u8> = vec![1u8; n];
        assert(r@ =~= Seq::new(n as nat, |i: int| 1u8));
        r
    }
}

/// The layers of a list of executables are those of its parts, in order.
pub proof fn law_layers_of_all(a: Seq<ExecView>, b: Seq<ExecView>, e: ExecView)
    ensures
        all_inputs(a + b) == all_inputs(a) + all_inputs(b),
        all_outputs(a + b) == all_outputs(a) + all_outputs(b),
        all_inputs(seq![e]) == e.input_layers,
        all_outputs(seq![e]) == e.output_layers,
        all_inputs(Seq::empty()).len() == 0,
        all_outputs(Seq::empty()).len() == 0,
    decreases b.len(),
{
    assert(seq![e].drop_last() =~= Seq::empty());
    assert(all_inputs(seq![e].drop_last()) =~= Seq::empty());
    assert(all_outputs(seq![e].drop_last()) =~= Seq::empty());
    assert(all_inputs(seq![e]) =~= e.input_layers);
    assert(all_outputs(seq![e]) =~= e.output_layers);
    if b.len() == 0 {
        assert(a + b =~= a);
        assert(all_inputs(a) + Seq::empty() =~= all_inputs(a));
        assert(all_outputs(a) + Seq::empty() =~= all_outputs(a));
    } else {
        law_layers_of_all(a, b.drop_last(), e);
        assert((a + b).drop_last() =~= a + b.drop_last());
        assert(all_inputs(a + b) =~= all_inputs(a) + all_inputs(b));
        assert(all_outputs(a + b) =~= all_outputs(a) + all_outputs(b));
    }
}

/// The first layer of a model is the first one of the first executable that has
/// any.
pub proof fn law_first_layers(execs: Seq<ExecView>, i: int)
    requires
        0 <= i < execs.len(),
    ensures
        execs[i].input_layers.len() > 0 && (forall|j: int|
            0 <= j < i ==> (#[trigger] execs[j]).input_layers.len() == 0) ==> first_layer(
            all_inputs(execs),
        ) == Some(execs[i].input_layers[0]),
        execs[i].output_layers.len() > 0 && (forall|j: int|
            0 <= j < i ==> (#[trigger] execs[j]).output_layers.len() == 0) ==> first_layer(
            all_outputs(execs),
        ) == Some(execs[i].output_layers[0]),
        first_layer(Seq::<LayerView>::empty()) is None,
{
    lemma_first_stays(execs, i + 1);
    assert(execs.take(i + 1).drop_last() =~= execs.take(i));
    assert(execs.take(i + 1).last() == execs[i]);
    lemma_no_layers(execs, i);
}

proof fn lemma_no_layers(execs: Seq<ExecView>, n: int)
    requires
        0 <= n <= execs.len(),
    ensures
        (forall|j: int| 0 <= j < n ==> (#[trigger] execs[j]).input_layers.len() == 0)
            ==> all_inputs(execs.take(n)).len() == 0,
        (forall|j: int| 0 <= j < n ==> (#[trigger] execs[j]).output_layers.len() == 0)
            ==> all_outputs(execs.take(n)).len() == 0,
    decreases n,
{
    if n > 0 {
        lemma_no_layers(execs, n - 1);
        assert(execs.take(n).drop_last() =~= execs.take(n - 1));
        assert(execs.take(n).last() == execs[n - 1]);
    }
}

/// The description of a model names its sizes and how many executables it has,
/// in decimal digits.
pub proof fn law_description(input: nat, output: nat, executables: nat)
    ensures
        repr_text(input, output, executables) == "Model(input="@ + numeral(input, 10, false)
            + "B, output="@ + numeral(output, 10, false) + "B, executables="@ + numeral(
            executables,
            10,
            false,
        ) + ")"@,
        ONE_BITS == 127 * 0x80_0000,
{
}

} // verus!
