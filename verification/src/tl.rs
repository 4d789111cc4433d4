//! The parsed form of a TL schema: definitions, parameters and type
//! references.  These are the generator's input; an upstream parser
//! produces them and hands them over as plain values.

use vstd::prelude::*;

verus! {

/// Whether a definition declares a type constructor or an RPC function.
#[derive(Clone, Copy, PartialEq, Eq, Structural, Debug)]
pub enum Category {
    Types,
    Functions,
}

/// A reference to a schema type: a possibly namespaced name and, for
/// `vector<T>`, one type argument.
pub struct Ty {
    /// Namespace segments, outermost first.
    pub namespace: Vec<Vec<u8>>,
    /// The bare type name, exactly as the schema spells it.
    pub name: Vec<u8>,
    /// The element type of a `vector<T>` reference.
    pub arg: Option<Box<Ty>>,
}

/// One parameter of a definition.
pub struct Parameter {
    /// The schema parameter name; also the JSON key of the field.
    pub name: Vec<u8>,
    /// The parameter's type reference.
    pub ty: Ty,
}

/// One parsed schema entry: a constructor or a function.
pub struct Definition {
    /// Namespace segments of the definition, outermost first.
    pub namespace: Vec<Vec<u8>>,
    /// The exact schema name; for constructors this is also the wire tag.
    pub name: Vec<u8>,
    /// The ordered parameter list.
    pub params: Vec<Parameter>,
    /// The declared result type.
    pub result: Ty,
    /// Constructor or function.
    pub category: Category,
}

/// Abstract form of a type reference.
pub enum TyV {
    Ref { namespace: Seq<Seq<u8>>, name: Seq<u8>, arg: Option<Box<TyV>> },
}

/// Abstract form of a parameter.
pub struct ParamV {
    pub name: Seq<u8>,
    pub ty: TyV,
}

/// Abstract form of a definition.
pub struct DefV {
    pub namespace: Seq<Seq<u8>>,
    pub name: Seq<u8>,
    pub params: Seq<ParamV>,
    pub result: TyV,
    pub category: Category,
}

impl TyV {
    pub open spec fn name(self) -> Seq<u8> {
        match self {
            TyV::Ref { name, .. } => name,
        }
    }

    pub open spec fn namespace(self) -> Seq<Seq<u8>> {
        match self {
            TyV::Ref { namespace, .. } => namespace,
        }
    }

    pub open spec fn arg(self) -> Option<Box<TyV>> {
        match self {
            TyV::Ref { arg, .. } => arg,
        }
    }
}

impl View for Ty {
    type V = TyV;

    open spec fn view(&self) -> TyV
        decreases self,
    {
        TyV::Ref {
            namespace: self.namespace.deep_view(),
            name: self.name@,
            arg: match self.arg {
                Option::None => Option::None,
                Option::Some(ref b) => Option::Some(Box::new((**b)@)),
            },
        }
    }
}

impl View for Parameter {
    type V = ParamV;

    open spec fn view(&self) -> ParamV {
        ParamV { name: self.name@, ty: self.ty@ }
    }
}

impl View for Definition {
    type V = DefV;

    open spec fn view(&self) -> DefV {
        DefV {
            namespace: self.namespace.deep_view(),
            name: self.name@,
            params: Seq::new(self.params@.len(), |i: int| self.params@[i]@),
            result: self.result@,
            category: self.category,
        }
    }
}

impl DeepView for Ty {
    type V = TyV;

    open spec fn deep_view(&self) -> TyV {
        self@
    }
}

impl DeepView for Parameter {
    type V = ParamV;

    open spec fn deep_view(&self) -> ParamV {
        self@
    }
}

impl DeepView for Definition {
    type V = DefV;

    open spec fn deep_view(&self) -> DefV {
        self@
    }
}

} // verus!
