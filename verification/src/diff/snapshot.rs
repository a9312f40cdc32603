//! Owned snapshot types that mirror the MDD hierarchy, compared element by
//! element by the diff.  Each has a mathematical view in which text is a
//! character sequence and each keyed collection is its list of entries in
//! name order.
use vstd::prelude::*;

use crate::diff::keyed_map::KeyedMap;
use crate::tree::types::strings_view;

verus! {

broadcast use vstd::std_specs::vec::group_vec_axioms;

/// Top-level ECU snapshot extracted from a diagnostic database.
#[derive(Debug)]
pub struct EcuSnapshot {
    pub name: String,
    pub version: String,
    pub revision: String,
    pub metadata: Vec<(String, String)>,
    pub variants: KeyedMap<VariantSnapshot>,
    pub functional_groups: KeyedMap<FunctionalGroupSnapshot>,
    pub dtcs: KeyedMap<DtcSnapshot>,
}

/// A single variant (base or derived).
#[derive(Debug)]
pub struct VariantSnapshot {
    pub is_base_variant: bool,
    pub diag_layer: DiagLayerSnapshot,
}

/// A functional group.
#[derive(Debug)]
pub struct FunctionalGroupSnapshot {
    pub diag_layer: DiagLayerSnapshot,
}

/// The core diagnostic layer present in variants and functional groups.
#[derive(Debug)]
pub struct DiagLayerSnapshot {
    pub short_name: String,
    pub long_name: String,
    pub services: KeyedMap<DiagServiceSnapshot>,
    pub single_ecu_jobs: KeyedMap<SingleEcuJobSnapshot>,
    pub state_charts: KeyedMap<StateChartSnapshot>,
    pub funct_classes: Vec<String>,
}

/// A diagnostic service with request/response data.
#[derive(Clone, Debug)]
pub struct DiagServiceSnapshot {
    pub diag_comm: DiagCommSnapshot,
    pub request_id: Option<u8>,
    pub request_sub_function: Option<(u32, u32)>,
    pub addressing: String,
    pub transmission_mode: String,
    pub is_cyclic: bool,
    pub is_multiple: bool,
    pub request: Option<RequestSnapshot>,
    pub pos_responses: Vec<ResponseSnapshot>,
    pub neg_responses: Vec<ResponseSnapshot>,
}

/// The `DiagComm` portion shared by services and ECU jobs.
#[derive(Clone, Debug)]
pub struct DiagCommSnapshot {
    pub short_name: String,
    pub long_name: String,
    pub semantic: String,
    pub diag_class_type: String,
    pub funct_classes: Vec<String>,
    pub is_mandatory: bool,
    pub is_executable: bool,
    pub is_final: bool,
    pub audience: Option<AudienceSnapshot>,
}

/// A request message (parameter list).
#[derive(Clone, Debug)]
pub struct RequestSnapshot {
    pub params: Vec<ParamSnapshot>,
}

/// A response message (positive or negative).
#[derive(Clone, Debug)]
pub struct ResponseSnapshot {
    pub response_type: String,
    pub params: Vec<ParamSnapshot>,
}

/// A single parameter within a request or response.
#[derive(Clone, Debug)]
pub struct ParamSnapshot {
    pub short_name: String,
    pub semantic: String,
    pub physical_default_value: String,
    pub byte_position: u32,
    pub bit_position: u32,
    pub param_type: String,
    pub specific_data_summary: String,
}

/// A Diagnostic Trouble Code.
#[derive(Clone, Debug)]
pub struct DtcSnapshot {
    pub short_name: String,
    pub trouble_code: u32,
    pub display_trouble_code: String,
    pub text: String,
    pub level: Option<u32>,
    pub is_temporary: bool,
}

/// A state chart with states and transitions.
#[derive(Clone, Debug)]
pub struct StateChartSnapshot {
    pub short_name: String,
    pub semantic: String,
    pub start_state: String,
    pub states: Vec<String>,
    pub transitions: Vec<String>,
}

/// A single-ECU job entry.
#[derive(Clone, Debug)]
pub struct SingleEcuJobSnapshot {
    pub diag_comm: DiagCommSnapshot,
    pub input_params: Vec<String>,
    pub output_params: Vec<String>,
    pub neg_output_params: Vec<String>,
}

/// Audience flags on a `DiagComm`.
#[derive(Debug, Clone, Copy, PartialEq, Eq, Structural)]
pub struct AudienceSnapshot {
    pub is_supplier: bool,
    pub is_development: bool,
    pub is_manufacturing: bool,
    pub is_after_sales: bool,
    pub is_after_market: bool,
}

// Views
pub ghost struct ParamV {
    pub short_name: Seq<char>,
    pub semantic: Seq<char>,
    pub physical_default_value: Seq<char>,
    pub byte_position: u32,
    pub bit_position: u32,
    pub param_type: Seq<char>,
    pub specific_data_summary: Seq<char>,
}

impl View for ParamSnapshot {
    type V = ParamV;

    open spec fn view(&self) -> ParamV {
        ParamV {
            short_name: self.short_name@,
            semantic: self.semantic@,
            physical_default_value: self.physical_default_value@,
            byte_position: self.byte_position,
            bit_position: self.bit_position,
            param_type: self.param_type@,
            specific_data_summary: self.specific_data_summary@,
        }
    }
}

pub open spec fn params_view(v: Seq<ParamSnapshot>) -> Seq<ParamV> {
    v.map_values(|p: ParamSnapshot| p@)
}

pub ghost struct RequestV {
    pub params: Seq<ParamV>,
}

impl View for RequestSnapshot {
    type V = RequestV;

    open spec fn view(&self) -> RequestV {
        RequestV { params: params_view(self.params@) }
    }
}

pub ghost struct ResponseV {
    pub response_type: Seq<char>,
    pub params: Seq<ParamV>,
}

impl View for ResponseSnapshot {
    type V = ResponseV;

    open spec fn view(&self) -> ResponseV {
        ResponseV { response_type: self.response_type@, params: params_view(self.params@) }
    }
}

pub open spec fn responses_view(v: Seq<ResponseSnapshot>) -> Seq<ResponseV> {
    v.map_values(|r: ResponseSnapshot| r@)
}

pub ghost struct DiagCommV {
    pub short_name: Seq<char>,
    pub long_name: Seq<char>,
    pub semantic: Seq<char>,
    pub diag_class_type: Seq<char>,
    pub funct_classes: Seq<Seq<char>>,
    pub is_mandatory: bool,
    pub is_executable: bool,
    pub is_final: bool,
    pub audience: Option<AudienceSnapshot>,
}

impl View for DiagCommSnapshot {
    type V = DiagCommV;

    open spec fn view(&self) -> DiagCommV {
        DiagCommV {
            short_name: self.short_name@,
            long_name: self.long_name@,
            semantic: self.semantic@,
            diag_class_type: self.diag_class_type@,
            funct_classes: strings_view(self.funct_classes@),
            is_mandatory: self.is_mandatory,
            is_executable: self.is_executable,
            is_final: self.is_final,
            audience: self.audience,
        }
    }
}

pub ghost struct DiagServiceV {
    pub diag_comm: DiagCommV,
    pub request_id: Option<u8>,
    pub request_sub_function: Option<(u32, u32)>,
    pub addressing: Seq<char>,
    pub transmission_mode: Seq<char>,
    pub is_cyclic: bool,
    pub is_multiple: bool,
    pub request: Option<RequestV>,
    pub pos_responses: Seq<ResponseV>,
    pub neg_responses: Seq<ResponseV>,
}

impl View for DiagServiceSnapshot {
    type V = DiagServiceV;

    open spec fn view(&self) -> DiagServiceV {
        DiagServiceV {
            diag_comm: self.diag_comm@,
            request_id: self.request_id,
            request_sub_function: self.request_sub_function,
            addressing: self.addressing@,
            transmission_mode: self.transmission_mode@,
            is_cyclic: self.is_cyclic,
            is_multiple: self.is_multiple,
            request: match self.request {
                Some(r) => Some(r@),
                None => None,
            },
            pos_responses: responses_view(self.pos_responses@),
            neg_responses: responses_view(self.neg_responses@),
        }
    }
}

pub ghost struct StateChartV {
    pub short_name: Seq<char>,
    pub semantic: Seq<char>,
    pub start_state: Seq<char>,
    pub states: Seq<Seq<char>>,
    pub transitions: Seq<Seq<char>>,
}

impl View for StateChartSnapshot {
    type V = StateChartV;

    open spec fn view(&self) -> StateChartV {
        StateChartV {
            short_name: self.short_name@,
            semantic: self.semantic@,
            start_state: self.start_state@,
            states: strings_view(self.states@),
            transitions: strings_view(self.transitions@),
        }
    }
}

pub ghost struct SingleEcuJobV {
    pub diag_comm: DiagCommV,
    pub input_params: Seq<Seq<char>>,
    pub output_params: Seq<Seq<char>>,
    pub neg_output_params: Seq<Seq<char>>,
}

impl View for SingleEcuJobSnapshot {
    type V = SingleEcuJobV;

    open spec fn view(&self) -> SingleEcuJobV {
        SingleEcuJobV {
            diag_comm: self.diag_comm@,
            input_params: strings_view(self.input_params@),
            output_params: strings_view(self.output_params@),
            neg_output_params: strings_view(self.neg_output_params@),
        }
    }
}

pub ghost struct DiagLayerV {
    pub short_name: Seq<char>,
    pub long_name: Seq<char>,
    pub services: Seq<(Seq<char>, DiagServiceV)>,
    pub single_ecu_jobs: Seq<(Seq<char>, SingleEcuJobV)>,
    pub state_charts: Seq<(Seq<char>, StateChartV)>,
    pub funct_classes: Seq<Seq<char>>,
}

impl View for DiagLayerSnapshot {
    type V = DiagLayerV;

    open spec fn view(&self) -> DiagLayerV {
        DiagLayerV {
            short_name: self.short_name@,
            long_name: self.long_name@,
            services: self.services@,
            single_ecu_jobs: self.single_ecu_jobs@,
            state_charts: self.state_charts@,
            funct_classes: strings_view(self.funct_classes@),
        }
    }
}

pub ghost struct VariantV {
    pub is_base_variant: bool,
    pub diag_layer: DiagLayerV,
}

impl View for VariantSnapshot {
    type V = VariantV;

    open spec fn view(&self) -> VariantV {
        VariantV { is_base_variant: self.is_base_variant, diag_layer: self.diag_layer@ }
    }
}

pub ghost struct FunctionalGroupV {
    pub diag_layer: DiagLayerV,
}

impl View for FunctionalGroupSnapshot {
    type V = FunctionalGroupV;

    open spec fn view(&self) -> FunctionalGroupV {
        FunctionalGroupV { diag_layer: self.diag_layer@ }
    }
}

pub ghost struct DtcV {
    pub short_name: Seq<char>,
    pub trouble_code: u32,
    pub display_trouble_code: Seq<char>,
    pub text: Seq<char>,
    pub level: Option<u32>,
    pub is_temporary: bool,
}

impl View for DtcSnapshot {
    type V = DtcV;

    open spec fn view(&self) -> DtcV {
        DtcV {
            short_name: self.short_name@,
            trouble_code: self.trouble_code,
            display_trouble_code: self.display_trouble_code@,
            text: self.text@,
            level: self.level,
            is_temporary: self.is_temporary,
        }
    }
}

pub ghost struct EcuV {
    pub name: Seq<char>,
    pub version: Seq<char>,
    pub revision: Seq<char>,
    pub metadata: Seq<(Seq<char>, Seq<char>)>,
    pub variants: Seq<(Seq<char>, VariantV)>,
    pub functional_groups: Seq<(Seq<char>, FunctionalGroupV)>,
    pub dtcs: Seq<(Seq<char>, DtcV)>,
}

pub open spec fn pairs_view(v: Seq<(String, String)>) -> Seq<(Seq<char>, Seq<char>)> {
    v.map_values(|p: (String, String)| (p.0@, p.1@))
}

impl View for EcuSnapshot {
    type V = EcuV;

    open spec fn view(&self) -> EcuV {
        EcuV {
            name: self.name@,
            version: self.version@,
            revision: self.revision@,
            metadata: pairs_view(self.metadata@),
            variants: self.variants@,
            functional_groups: self.functional_groups@,
            dtcs: self.dtcs@,
        }
    }
}

impl Default for DiagCommSnapshot {
    fn default() -> (r: Self)
        ensures
            r@ == (DiagCommV {
                short_name: Seq::empty(),
                long_name: Seq::empty(),
                semantic: Seq::empty(),
                diag_class_type: Seq::empty(),
                funct_classes: Seq::empty(),
                is_mandatory: false,
                is_executable: false,
                is_final: false,
                audience: None,
            }),
    {
        let r = DiagCommSnapshot {
            short_name: String::new(),
            long_name: String::new(),
            semantic: String::new(),
            diag_class_type: String::new(),
            funct_classes: Vec::new(),
            is_mandatory: false,
            is_executable: false,
            is_final: false,
            audience: None,
        };
        assert(strings_view(r.funct_classes@) =~= Seq::empty());
        r
    }
}

impl Default for DiagLayerSnapshot {
    fn default() -> (r: Self)
        ensures
            r@ == (DiagLayerV {
                short_name: Seq::empty(),
                long_name: Seq::empty(),
                services: Seq::empty(),
                single_ecu_jobs: Seq::empty(),
                state_charts: Seq::empty(),
                funct_classes: Seq::empty(),
            }),
    {
        let r = DiagLayerSnapshot {
            short_name: String::new(),
            long_name: String::new(),
            services: KeyedMap::new(),
            single_ecu_jobs: KeyedMap::new(),
            state_charts: KeyedMap::new(),
            funct_classes: Vec::new(),
        };
        assert(strings_view(r.funct_classes@) =~= Seq::empty());
        r
    }
}

// Equality of snapshots by their views
/// Two string lists hold the same texts.
pub fn strings_equal(a: &Vec<String>, b: &Vec<String>) -> (r: bool)
    ensures
        r == (strings_view(a@) == strings_view(b@)),
{
    if a.len() != b.len() {
        assert(strings_view(a@).len() != strings_view(b@).len());
        return false;
    }
    let mut i: usize = 0;
    while i < a.len()
        invariant
            a@.len() == b@.len(),
            0 <= i <= a@.len(),
            forall|j: int| 0 <= j < i ==> #[trigger] a@[j]@ == b@[j]@,
        decreases a.len() - i,
    {
        if a[i] != b[i] {
            assert(strings_view(a@)[i as int] != strings_view(b@)[i as int]);
            return false;
        }
        i = i + 1;
    }
    assert(strings_view(a@) =~= strings_view(b@));
    true
}

impl ParamSnapshot {
    /// Same view.
    pub fn same(&self, other: &Self) -> (r: bool)
        ensures
            r == (self@ == other@),
    {
        self.short_name == other.short_name && self.semantic == other.semantic
            && self.physical_default_value == other.physical_default_value && self.byte_position
            == other.byte_position && self.bit_position == other.bit_position && self.param_type
            == other.param_type && self.specific_data_summary == other.specific_data_summary
    }

    /// A copy with the same view.
    pub fn duplicate(&self) -> (r: Self)
        ensures
            r@ == self@,
    {
        ParamSnapshot {
            short_name: self.short_name.clone(),
            semantic: self.semantic.clone(),
            physical_default_value: self.physical_default_value.clone(),
            byte_position: self.byte_position,
            bit_position: self.bit_position,
            param_type: self.param_type.clone(),
            specific_data_summary: self.specific_data_summary.clone(),
        }
    }
}

/// Two parameter lists have the same views.
pub fn params_equal(a: &Vec<ParamSnapshot>, b: &Vec<ParamSnapshot>) -> (r: bool)
    ensures
        r == (params_view(a@) == params_view(b@)),
{
    if a.len() != b.len() {
        assert(params_view(a@).len() != params_view(b@).len());
        return false;
    }
    let mut i: usize = 0;
    while i < a.len()
        invariant
            a@.len() == b@.len(),
            0 <= i <= a@.len(),
            forall|j: int| 0 <= j < i ==> #[trigger] a@[j]@ == b@[j]@,
        decreases a.len() - i,
    {
        if !a[i].same(&b[i]) {
            assert(params_view(a@)[i as int] != params_view(b@)[i as int]);
            return false;
        }
        i = i + 1;
    }
    assert(params_view(a@) =~= params_view(b@));
    true
}

impl ResponseSnapshot {
    /// Same view.
    pub fn same(&self, other: &Self) -> (r: bool)
        ensures
            r == (self@ == other@),
    {
        self.response_type == other.response_type && params_equal(&self.params, &other.params)
    }
}

/// Two response lists have the same views.
pub fn responses_equal(a: &Vec<ResponseSnapshot>, b: &Vec<ResponseSnapshot>) -> (r: bool)
    ensures
        r == (responses_view(a@) == responses_view(b@)),
{
    if a.len() != b.len() {
        assert(responses_view(a@).len() != responses_view(b@).len());
        return false;
    }
    let mut i: usize = 0;
    while i < a.len()
        invariant
            a@.len() == b@.len(),
            0 <= i <= a@.len(),
            forall|j: int| 0 <= j < i ==> #[trigger] a@[j]@ == b@[j]@,
        decreases a.len() - i,
    {
        if !a[i].same(&b[i]) {
            assert(responses_view(a@)[i as int] != responses_view(b@)[i as int]);
            return false;
        }
        i = i + 1;
    }
    assert(responses_view(a@) =~= responses_view(b@));
    true
}

impl RequestSnapshot {
    /// Same view.
    pub fn same(&self, other: &Self) -> (r: bool)
        ensures
            r == (self@ == other@),
    {
        params_equal(&self.params, &other.params)
    }
}

impl DiagCommSnapshot {
    /// Same view.
    pub fn same(&self, other: &Self) -> (r: bool)
        ensures
            r == (self@ == other@),
    {
        self.short_name == other.short_name && self.long_name == other.long_name && self.semantic
            == other.semantic && self.diag_class_type == other.diag_class_type && strings_equal(
            &self.funct_classes,
            &other.funct_classes,
        ) && self.is_mandatory == other.is_mandatory && self.is_executable == other.is_executable
            && self.is_final == other.is_final && self.audience == other.audience
    }
}

impl DiagServiceSnapshot {
    /// Same view.
    pub fn same(&self, other: &Self) -> (r: bool)
        ensures
            r == (self@ == other@),
    {
        let req_same = match (&self.request, &other.request) {
            (Some(a), Some(b)) => a.same(b),
            (None, None) => true,
            _ => false,
        };
        self.diag_comm.same(&other.diag_comm) && self.request_id == other.request_id
            && self.request_sub_function == other.request_sub_function && self.addressing
            == other.addressing && self.transmission_mode == other.transmission_mode
            && self.is_cyclic == other.is_cyclic && self.is_multiple == other.is_multiple
            && req_same && responses_equal(&self.pos_responses, &other.pos_responses)
            && responses_equal(&self.neg_responses, &other.neg_responses)
    }
}

impl StateChartSnapshot {
    /// Same view.
    pub fn same(&self, other: &Self) -> (r: bool)
        ensures
            r == (self@ == other@),
    {
        self.short_name == other.short_name && self.semantic == other.semantic
            && self.start_state == other.start_state && strings_equal(&self.states, &other.states)
            && strings_equal(&self.transitions, &other.transitions)
    }
}

impl SingleEcuJobSnapshot {
    /// Same view.
    pub fn same(&self, other: &Self) -> (r: bool)
        ensures
            r == (self@ == other@),
    {
        self.diag_comm.same(&other.diag_comm) && strings_equal(
            &self.input_params,
            &other.input_params,
        ) && strings_equal(&self.output_params, &other.output_params) && strings_equal(
            &self.neg_output_params,
            &other.neg_output_params,
        )
    }
}

impl DtcSnapshot {
    /// Same view.
    pub fn same(&self, other: &Self) -> (r: bool)
        ensures
            r == (self@ == other@),
    {
        self.short_name == other.short_name && self.trouble_code == other.trouble_code
            && self.display_trouble_code == other.display_trouble_code && self.text == other.text
            && self.level == other.level && self.is_temporary == other.is_temporary
    }
}

} // verus!
