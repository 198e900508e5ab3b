//! Parameters, Domain Types, Functions, and Modules of a Program revision.
use vstd::prelude::*;
use vstd::std_specs::slice::into_iter_elts;

use crate::body::{body_view, BodyView, FunctionBody};
use crate::ids::{FunctionId, ModuleId, ParameterId, TypeId};
use crate::intrinsic::{IntrinsicType, ValueType};
use crate::lookup::{first_index_where, is_first_where, lemma_first_index_facts, lemma_first_index_is};
use crate::presentation::PresentationMetadata;

verus! {

broadcast use vstd::std_specs::slice::axiom_spec_slice_iter;

/// One typed entry in a Function's ordered Parameter sequence.
#[derive(Clone, Debug, PartialEq, Eq)]
pub struct Parameter {
    pub id: ParameterId,
    pub value_type: ValueType,
    pub presentation: PresentationMetadata,
}

impl Parameter {
    pub(crate) fn new(id: ParameterId, value_type: ValueType) -> (r: Self)
        ensures
            r == fresh_parameter(id, value_type),
    {
        Parameter { id, value_type, presentation: PresentationMetadata::empty() }
    }

    /// Returns this Parameter's identity.
    pub fn id(&self) -> (r: ParameterId)
        ensures
            r == self.id,
    {
        self.id
    }

    /// Returns this Parameter's complete value type.
    pub fn intrinsic_type(&self) -> (r: &ValueType)
        ensures
            *r == self.value_type,
    {
        &self.value_type
    }

    /// Returns this Parameter's complete value type.
    pub fn value_type(&self) -> (r: &ValueType)
        ensures
            *r == self.value_type,
    {
        &self.value_type
    }

    /// Returns this Parameter's presentation metadata.
    pub fn presentation(&self) -> (r: &PresentationMetadata)
        ensures
            *r == self.presentation,
    {
        &self.presentation
    }

    pub(crate) fn copied(&self) -> (r: Self)
        ensures
            r == *self,
    {
        Parameter { id: self.id, value_type: self.value_type, presentation: self.presentation.copied() }
    }
}

/// A fresh Parameter: no presentation metadata.
pub open spec fn fresh_parameter(id: ParameterId, value_type: ValueType) -> Parameter {
    Parameter { id, value_type, presentation: PresentationMetadata { preferred_name: None, documentation: None } }
}

/// A nominal Domain Type owned by one Module, with an intrinsic
/// representation type.
#[derive(Clone, Debug, PartialEq, Eq)]
pub struct DomainType {
    pub id: TypeId,
    pub representation: IntrinsicType,
    pub presentation: PresentationMetadata,
}

impl DomainType {
    pub(crate) fn new(id: TypeId, representation: IntrinsicType) -> (r: Self)
        ensures
            r == fresh_domain_type(id, representation),
    {
        DomainType { id, representation, presentation: PresentationMetadata::empty() }
    }

    /// Returns this Domain Type's identity.
    pub fn id(&self) -> (r: TypeId)
        ensures
            r == self.id,
    {
        self.id
    }

    /// Returns this Domain Type's intrinsic representation type.
    pub fn representation(&self) -> (r: IntrinsicType)
        ensures
            r == self.representation,
    {
        self.representation
    }

    /// Returns this Domain Type's presentation metadata.
    pub fn presentation(&self) -> (r: &PresentationMetadata)
        ensures
            *r == self.presentation,
    {
        &self.presentation
    }

    pub(crate) fn copied(&self) -> (r: Self)
        ensures
            r == *self,
    {
        DomainType { id: self.id, representation: self.representation, presentation: self.presentation.copied() }
    }
}

/// A fresh Domain Type: no presentation metadata.
pub open spec fn fresh_domain_type(id: TypeId, representation: IntrinsicType) -> DomainType {
    DomainType { id, representation, presentation: PresentationMetadata { preferred_name: None, documentation: None } }
}

/// A Function owned by exactly one Module: its signature and optional body.
#[derive(Clone, Debug, PartialEq, Eq)]
pub struct Function {
    pub id: FunctionId,
    pub return_type: ValueType,
    pub parameters: Vec<Parameter>,
    pub body: Option<FunctionBody>,
    pub presentation: PresentationMetadata,
}

/// The identity, signature, body, and presentation of a Function.
pub struct FunctionView {
    pub id: FunctionId,
    pub return_type: ValueType,
    pub parameters: Seq<Parameter>,
    pub body: Option<BodyView>,
    pub presentation: PresentationMetadata,
}

impl View for Function {
    type V = FunctionView;

    open spec fn view(&self) -> FunctionView {
        FunctionView {
            id: self.id,
            return_type: self.return_type,
            parameters: self.parameters@,
            body: body_view(self.body),
            presentation: self.presentation,
        }
    }
}

/// A fresh Function: no Parameters, no body, no presentation metadata.
pub open spec fn fresh_function(id: FunctionId, return_type: ValueType) -> FunctionView {
    FunctionView {
        id,
        return_type,
        parameters: Seq::empty(),
        body: None,
        presentation: PresentationMetadata { preferred_name: None, documentation: None },
    }
}

/// Selects Parameters by identity.
pub open spec fn parameter_has_id(id: ParameterId) -> spec_fn(Parameter) -> bool {
    |p: Parameter| p.id == id
}

/// The position of the first Parameter with identity `id`, or `-1`.
pub open spec fn parameter_index(parameters: Seq<Parameter>, id: ParameterId) -> int {
    first_index_where(parameters, parameter_has_id(id))
}

/// The first Parameter of `parameters` with identity `id`.
pub open spec fn find_parameter_in(parameters: Seq<Parameter>, id: ParameterId) -> Option<Parameter> {
    let i = parameter_index(parameters, id);
    if i >= 0 {
        Some(parameters[i])
    } else {
        None
    }
}

/// Finds the position of the first Parameter with identity `id`.
pub(crate) fn position_of_parameter(parameters: &Vec<Parameter>, id: ParameterId) -> (r: Option<usize>)
    ensures
        match r {
            Some(i) => i as int == parameter_index(parameters@, id) && i < parameters@.len(),
            None => parameter_index(parameters@, id) == -1,
        },
{
    let mut i: usize = 0;
    while i < parameters.len()
        invariant
            i <= parameters@.len(),
            forall|j: int| 0 <= j < i ==> !(parameter_has_id(id))(#[trigger] parameters@[j]),
        decreases parameters.len() - i,
    {
        if parameters[i].id == id {
            proof {
                assert(is_first_where(parameters@, parameter_has_id(id), i as int));
                lemma_first_index_is(parameters@, parameter_has_id(id), i as int);
            }
            return Some(i);
        }
        i = i + 1;
    }
    proof {
        lemma_first_index_facts(parameters@, parameter_has_id(id));
    }
    None
}

impl Function {
    pub(crate) fn new(id: FunctionId, return_type: ValueType) -> (r: Self)
        ensures
            r@ == fresh_function(id, return_type),
    {
        let r = Function {
            id,
            return_type,
            parameters: Vec::new(),
            body: None,
            presentation: PresentationMetadata::empty(),
        };
        assert(r@.parameters =~= Seq::<Parameter>::empty());
        r
    }

    /// Returns this Function's identity.
    pub fn id(&self) -> (r: FunctionId)
        ensures
            r == self.id,
    {
        self.id
    }

    /// Returns the return type.
    pub fn return_type(&self) -> (r: &ValueType)
        ensures
            *r == self.return_type,
    {
        &self.return_type
    }

    /// Returns this Function's presentation metadata.
    pub fn presentation(&self) -> (r: &PresentationMetadata)
        ensures
            *r == self.presentation,
    {
        &self.presentation
    }

    /// Returns the ordered Parameter sequence.
    pub fn parameters(&self) -> (r: &[Parameter])
        ensures
            r@ == self.parameters@,
    {
        self.parameters.as_slice()
    }

    /// Returns the number of Parameters.
    pub fn parameter_count(&self) -> (r: usize)
        ensures
            r == self.parameters@.len(),
    {
        self.parameters.len()
    }

    /// Looks up one of this Function's Parameters by identity.
    pub fn parameter(&self, id: ParameterId) -> (r: Option<&Parameter>)
        ensures
            match r {
                Some(p) => find_parameter_in(self.parameters@, id) == Some(*p),
                None => find_parameter_in(self.parameters@, id) is None,
            },
    {
        match position_of_parameter(&self.parameters, id) {
            Some(i) => Some(&self.parameters[i]),
            None => None,
        }
    }

    /// Whether this Function has an executable body.
    pub fn has_body(&self) -> (r: bool)
        ensures
            r == self.body.is_some(),
    {
        self.body.is_some()
    }

    /// Returns the optional executable body.
    pub fn body(&self) -> (r: Option<&FunctionBody>)
        ensures
            match r {
                Some(b) => self@.body == Some(b@),
                None => self.body is None,
            },
    {
        match &self.body {
            Some(b) => Some(b),
            None => None,
        }
    }

    pub(crate) fn copied(&self) -> (r: Self)
        ensures
            r@ == self@,
    {
        let mut parameters: Vec<Parameter> = Vec::new();
        let mut i: usize = 0;
        while i < self.parameters.len()
            invariant
                i <= self.parameters@.len(),
                parameters@ == self.parameters@.subrange(0, i as int),
            decreases self.parameters.len() - i,
        {
            parameters.push(self.parameters[i].copied());
            i = i + 1;
            assert(parameters@ =~= self.parameters@.subrange(0, i as int));
        }
        assert(parameters@ =~= self.parameters@);
        let body = match &self.body {
            Some(b) => Some(b.copied()),
            None => None,
        };
        Function {
            id: self.id,
            return_type: self.return_type,
            parameters,
            body,
            presentation: self.presentation.copied(),
        }
    }
}

/// Selects Domain Types by identity.
pub open spec fn domain_type_has_id(id: TypeId) -> spec_fn(DomainType) -> bool {
    |t: DomainType| t.id == id
}

/// The position of the first Domain Type with identity `id`, or `-1`.
pub open spec fn domain_type_index(types: Seq<DomainType>, id: TypeId) -> int {
    first_index_where(types, domain_type_has_id(id))
}

/// The first Domain Type of `types` with identity `id`.
pub open spec fn find_domain_type_in(types: Seq<DomainType>, id: TypeId) -> Option<DomainType> {
    let i = domain_type_index(types, id);
    if i >= 0 {
        Some(types[i])
    } else {
        None
    }
}

/// Finds the position of the first Domain Type with identity `id`.
pub(crate) fn position_of_domain_type(types: &Vec<DomainType>, id: TypeId) -> (r: Option<usize>)
    ensures
        match r {
            Some(i) => i as int == domain_type_index(types@, id) && i < types@.len(),
            None => domain_type_index(types@, id) == -1,
        },
{
    let mut i: usize = 0;
    while i < types.len()
        invariant
            i <= types@.len(),
            forall|j: int| 0 <= j < i ==> !(domain_type_has_id(id))(#[trigger] types@[j]),
        decreases types.len() - i,
    {
        if types[i].id == id {
            proof {
                assert(is_first_where(types@, domain_type_has_id(id), i as int));
                lemma_first_index_is(types@, domain_type_has_id(id), i as int);
            }
            return Some(i);
        }
        i = i + 1;
    }
    proof {
        lemma_first_index_facts(types@, domain_type_has_id(id));
    }
    None
}

/// Selects Functions by identity.
pub open spec fn function_has_id(id: FunctionId) -> spec_fn(FunctionView) -> bool {
    |f: FunctionView| f.id == id
}

/// The position of the first Function with identity `id`, or `-1`.
pub open spec fn function_index(functions: Seq<FunctionView>, id: FunctionId) -> int {
    first_index_where(functions, function_has_id(id))
}

/// The views of a sequence of Functions.
pub open spec fn function_views(functions: Seq<Function>) -> Seq<FunctionView> {
    functions.map_values(|f: Function| f@)
}

/// Finds the position of the first Function with identity `id`.
pub(crate) fn position_of_function(functions: &Vec<Function>, id: FunctionId) -> (r: Option<usize>)
    ensures
        match r {
            Some(i) => i as int == function_index(function_views(functions@), id) && i
                < functions@.len(),
            None => function_index(function_views(functions@), id) == -1,
        },
{
    let ghost views = function_views(functions@);
    let mut i: usize = 0;
    while i < functions.len()
        invariant
            i <= functions@.len(),
            views == function_views(functions@),
            forall|j: int| 0 <= j < i ==> !(function_has_id(id))(#[trigger] views[j]),
        decreases functions.len() - i,
    {
        if functions[i].id == id {
            proof {
                assert(is_first_where(views, function_has_id(id), i as int));
                lemma_first_index_is(views, function_has_id(id), i as int);
            }
            return Some(i);
        }
        i = i + 1;
    }
    proof {
        lemma_first_index_facts(views, function_has_id(id));
    }
    None
}

/// A Module: an identity-addressed collection of Domain Types and Functions.
#[derive(Clone, Debug, PartialEq, Eq)]
pub struct Module {
    pub id: ModuleId,
    pub domain_types: Vec<DomainType>,
    pub functions: Vec<Function>,
    pub presentation: PresentationMetadata,
}

/// The identity, Domain Types, Functions, and presentation of a Module.
pub struct ModuleView {
    pub id: ModuleId,
    pub domain_types: Seq<DomainType>,
    pub functions: Seq<FunctionView>,
    pub presentation: PresentationMetadata,
}

impl View for Module {
    type V = ModuleView;

    open spec fn view(&self) -> ModuleView {
        ModuleView {
            id: self.id,
            domain_types: self.domain_types@,
            functions: function_views(self.functions@),
            presentation: self.presentation,
        }
    }
}

/// A fresh Module: no Domain Types, no Functions, no presentation metadata.
pub open spec fn fresh_module(id: ModuleId) -> ModuleView {
    ModuleView {
        id,
        domain_types: Seq::empty(),
        functions: Seq::empty(),
        presentation: PresentationMetadata { preferred_name: None, documentation: None },
    }
}

/// The first Function of `functions` with identity `id`.
pub open spec fn find_function_in(functions: Seq<FunctionView>, id: FunctionId) -> Option<FunctionView> {
    let i = function_index(functions, id);
    if i >= 0 {
        Some(functions[i])
    } else {
        None
    }
}

impl Module {
    pub(crate) fn new(id: ModuleId) -> (r: Self)
        ensures
            r@ == fresh_module(id),
    {
        let r = Module {
            id,
            domain_types: Vec::new(),
            functions: Vec::new(),
            presentation: PresentationMetadata::empty(),
        };
        assert(r@.domain_types =~= Seq::<DomainType>::empty());
        assert(r@.functions =~= Seq::<FunctionView>::empty());
        r
    }

    /// Returns this Module's identity.
    pub fn id(&self) -> (r: ModuleId)
        ensures
            r == self.id,
    {
        self.id
    }

    /// Returns this Module's presentation metadata.
    pub fn presentation(&self) -> (r: &PresentationMetadata)
        ensures
            *r == self.presentation,
    {
        &self.presentation
    }

    /// Returns the number of Functions owned by this Module.
    pub fn function_count(&self) -> (r: usize)
        ensures
            r == self@.functions.len(),
    {
        self.functions.len()
    }

    /// Looks up an owned Function by identity.
    pub fn function(&self, id: FunctionId) -> (r: Option<&Function>)
        ensures
            match r {
                Some(f) => find_function_in(self@.functions, id) == Some(f@),
                None => find_function_in(self@.functions, id) is None,
            },
    {
        match position_of_function(&self.functions, id) {
            Some(i) => Some(&self.functions[i]),
            None => None,
        }
    }

    /// Enumerates the owned Functions. The order carries no meaning.
    pub fn functions(&self) -> (r: std::slice::Iter<'_, Function>)
        ensures
            into_iter_elts(r) == self.functions@,
    {
        self.functions.as_slice().iter()
    }

    /// Returns the number of Domain Types owned by this Module.
    pub fn domain_type_count(&self) -> (r: usize)
        ensures
            r == self@.domain_types.len(),
    {
        self.domain_types.len()
    }

    /// Looks up an owned Domain Type by identity.
    pub fn domain_type(&self, id: TypeId) -> (r: Option<&DomainType>)
        ensures
            match r {
                Some(t) => find_domain_type_in(self@.domain_types, id) == Some(*t),
                None => find_domain_type_in(self@.domain_types, id) is None,
            },
    {
        match position_of_domain_type(&self.domain_types, id) {
            Some(i) => Some(&self.domain_types[i]),
            None => None,
        }
    }

    /// Enumerates the owned Domain Types. The order carries no meaning.
    pub fn domain_types(&self) -> (r: std::slice::Iter<'_, DomainType>)
        ensures
            into_iter_elts(r) == self.domain_types@,
    {
        self.domain_types.as_slice().iter()
    }

    pub(crate) fn copied(&self) -> (r: Self)
        ensures
            r@ == self@,
    {
        let mut domain_types: Vec<DomainType> = Vec::new();
        let mut i: usize = 0;
        while i < self.domain_types.len()
            invariant
                i <= self.domain_types@.len(),
                domain_types@ == self.domain_types@.subrange(0, i as int),
            decreases self.domain_types.len() - i,
        {
            domain_types.push(self.domain_types[i].copied());
            i = i + 1;
            assert(domain_types@ =~= self.domain_types@.subrange(0, i as int));
        }
        assert(domain_types@ =~= self.domain_types@);
        let mut functions: Vec<Function> = Vec::new();
        let mut k: usize = 0;
        while k < self.functions.len()
            invariant
                k <= self.functions@.len(),
                functions@.len() == k,
                forall|m: int| 0 <= m < k ==> #[trigger] functions@[m]@ == self.functions@[m]@,
            decreases self.functions.len() - k,
        {
            functions.push(self.functions[k].copied());
            k = k + 1;
        }
        assert(function_views(functions@) =~= function_views(self.functions@));
        Module { id: self.id, domain_types, functions, presentation: self.presentation.copied() }
    }
}

/// Selects Modules by identity.
pub open spec fn module_has_id(id: ModuleId) -> spec_fn(ModuleView) -> bool {
    |m: ModuleView| m.id == id
}

/// The position of the first Module with identity `id`, or `-1`.
pub open spec fn module_index(modules: Seq<ModuleView>, id: ModuleId) -> int {
    first_index_where(modules, module_has_id(id))
}

/// The first Module of `modules` with identity `id`.
pub open spec fn find_module_in(modules: Seq<ModuleView>, id: ModuleId) -> Option<ModuleView> {
    let i = module_index(modules, id);
    if i >= 0 {
        Some(modules[i])
    } else {
        None
    }
}

/// The views of a sequence of Modules.
pub open spec fn module_views(modules: Seq<Module>) -> Seq<ModuleView> {
    modules.map_values(|m: Module| m@)
}

/// Finds the position of the first Module with identity `id`.
pub(crate) fn position_of_module(modules: &Vec<Module>, id: ModuleId) -> (r: Option<usize>)
    ensures
        match r {
            Some(i) => i as int == module_index(module_views(modules@), id) && i < modules@.len(),
            None => module_index(module_views(modules@), id) == -1,
        },
{
    let ghost views = module_views(modules@);
    let mut i: usize = 0;
    while i < modules.len()
        invariant
            i <= modules@.len(),
            views == module_views(modules@),
            forall|j: int| 0 <= j < i ==> !(module_has_id(id))(#[trigger] views[j]),
        decreases modules.len() - i,
    {
        if modules[i].id == id {
            proof {
                assert(is_first_where(views, module_has_id(id), i as int));
                lemma_first_index_is(views, module_has_id(id), i as int);
            }
            return Some(i);
        }
        i = i + 1;
    }
    proof {
        lemma_first_index_facts(views, module_has_id(id));
    }
    None
}

/// Copies a sequence of Modules.
pub(crate) fn copy_modules(modules: &Vec<Module>) -> (r: Vec<Module>)
    ensures
        module_views(r@) == module_views(modules@),
{
    let mut out: Vec<Module> = Vec::new();
    let mut i: usize = 0;
    while i < modules.len()
        invariant
            i <= modules@.len(),
            out@.len() == i,
            forall|m: int| 0 <= m < i ==> #[trigger] out@[m]@ == modules@[m]@,
        decreases modules.len() - i,
    {
        out.push(modules[i].copied());
        i = i + 1;
    }
    assert(module_views(out@) =~= module_views(modules@));
    out
}

} // verus!
