//! The plottable parameter list: one flattened scalar reference per scalar
//! channel and per element of each array channel; string channels are not
//! plottable and are skipped.

use vstd::prelude::*;
use crate::model::{DatarefDefV, Parameter, ParameterV, XDRData};
use crate::text::{indexed_name, spec_indexed_name, type_name_of};

verus! {

/// The parameters one schema entry contributes.
pub open spec fn spec_params_for(d: DatarefDefV, i: int) -> Seq<ParameterV> {
    if d.data_type == "string"@ {
        Seq::empty()
    } else if d.array_size > 0 {
        Seq::new(
            d.array_size as nat,
            |j: int|
                ParameterV {
                    index: i as usize,
                    array_index: j as usize,
                    name: spec_indexed_name(d.name, j as nat),
                    data_type: d.data_type,
                },
        )
    } else {
        seq![
            ParameterV { index: i as usize, array_index: 0, name: d.name, data_type: d.data_type },
        ]
    }
}

/// The parameters of the schema from entry `i` on, in declaration order.
pub open spec fn spec_all_params(ds: Seq<DatarefDefV>, i: int) -> Seq<ParameterV>
    decreases ds.len() - i,
{
    if i < 0 || i >= ds.len() {
        Seq::empty()
    } else {
        spec_params_for(ds[i], i) + spec_all_params(ds, i + 1)
    }
}

impl XDRData {
    /// Flattens the schema into the plottable parameter list.
    pub fn get_all_plottable_parameters(&self) -> (r: Vec<Parameter>)
        ensures
            r@.map(|i: int, p: Parameter| p@) == spec_all_params(self.datarefs_view(), 0),
    {
        let ghost ds = self.datarefs_view();
        let mut params: Vec<Parameter> = Vec::new();
        let n: usize = self.datarefs.len();
        let mut i: usize = 0;
        let string_name = type_name_of(2);
        proof {
            assert(params@.map(|t: int, p: Parameter| p@) + spec_all_params(ds, 0)
                =~= spec_all_params(ds, 0));
        }
        while i < n
            invariant
                n == self.datarefs@.len(),
                ds == self.datarefs_view(),
                i <= n,
                string_name@ == "string"@,
                spec_all_params(ds, 0) == params@.map(|t: int, p: Parameter| p@)
                    + spec_all_params(ds, i as int),
            decreases n - i,
        {
            let ghost params0 = params@.map(|t: int, p: Parameter| p@);
            let ghost d = ds[i as int];
            let dr = &self.datarefs[i];
            proof {
                assert(d == self.datarefs@[i as int]@);
            }
            if dr.data_type == string_name {
                proof {
                    assert(spec_params_for(d, i as int) =~= Seq::<ParameterV>::empty());
                    assert(params0 + (Seq::<ParameterV>::empty() + spec_all_params(ds, i + 1))
                        =~= params0 + spec_all_params(ds, i + 1));
                }
            } else if dr.array_size > 0 {
                let asz: u8 = dr.array_size;
                let mut j: u8 = 0;
                while j < asz
                    invariant
                        n == self.datarefs@.len(),
                        ds == self.datarefs_view(),
                        i < n,
                        d == ds[i as int],
                        j <= asz,
                        asz == d.array_size,
                        d.data_type != "string"@,
                        asz > 0,
                        dr == self.datarefs@[i as int],
                        params@.map(|t: int, p: Parameter| p@) =~= params0 + Seq::new(
                            j as nat,
                            |t: int|
                                ParameterV {
                                    index: i as usize,
                                    array_index: t as usize,
                                    name: spec_indexed_name(d.name, t as nat),
                                    data_type: d.data_type,
                                },
                        ),
                    decreases asz - j,
                {
                    let ghost before = params@.map(|t: int, p: Parameter| p@);
                    let p = Parameter {
                        index: i,
                        array_index: j as usize,
                        name: indexed_name(&dr.name, j as u64),
                        data_type: dr.data_type.clone(),
                    };
                    let ghost pv = p@;
                    params.push(p);
                    proof {
                        assert(params@.map(|t: int, p: Parameter| p@) =~= before + seq![pv]);
                        assert(before + seq![pv] =~= params0 + Seq::new(
                            (j + 1) as nat,
                            |t: int|
                                ParameterV {
                                    index: i as usize,
                                    array_index: t as usize,
                                    name: spec_indexed_name(d.name, t as nat),
                                    data_type: d.data_type,
                                },
                        ));
                    }
                    j = j + 1;
                }
                proof {
                    assert(spec_params_for(d, i as int) =~= Seq::new(
                        asz as nat,
                        |t: int|
                            ParameterV {
                                index: i as usize,
                                array_index: t as usize,
                                name: spec_indexed_name(d.name, t as nat),
                                data_type: d.data_type,
                            },
                    ));
                    assert(params0 + (spec_params_for(d, i as int) + spec_all_params(ds, i + 1))
                        =~= params@.map(|t: int, p: Parameter| p@) + spec_all_params(ds, i + 1));
                }
            } else {
                let ghost before = params@.map(|t: int, p: Parameter| p@);
                let p = Parameter {
                    index: i,
                    array_index: 0,
                    name: dr.name.clone(),
                    data_type: dr.data_type.clone(),
                };
                let ghost pv = p@;
                params.push(p);
                proof {
                    assert(params@.map(|t: int, p: Parameter| p@) =~= before + seq![pv]);
                    assert(spec_params_for(d, i as int) =~= seq![pv]);
                    assert(params0 + (seq![pv] + spec_all_params(ds, i + 1)) =~= params@.map(
                        |t: int, p: Parameter| p@,
                    ) + spec_all_params(ds, i + 1));
                }
            }
            i = i + 1;
        }
        proof {
            assert(spec_all_params(ds, n as int) =~= Seq::<ParameterV>::empty());
            assert(params@.map(|t: int, p: Parameter| p@) + Seq::<ParameterV>::empty()
                =~= params@.map(|t: int, p: Parameter| p@));
        }
        params
    }
}

} // verus!
