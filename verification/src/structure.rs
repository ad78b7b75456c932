//! The schema catalog: object, enum and scalar declarations, their fields,
//! and name-keyed lookup over all of them.

use vstd::prelude::*;

use crate::search::{find_idx, lemma_find_idx_is_first};
use crate::text::streq;

verus! {

/// The closed set of field-resolution strategies.
#[derive(Clone, Copy, Debug, PartialEq, Eq, Structural)]
pub enum ResolverKind {
    Data,
    AllReferences,
    Create,
    Update,
    Delete,
    Substitution,
}

/// The primitive-or-reference kind a field's stored data must have.
#[derive(Clone, Debug)]
pub enum StructureDataKind {
    Str,
    I32,
    U64,
    F64,
    Bool,
    Reference(String),
}

/// How a field is resolved; `flags` carries the target-object name for the
/// mutation strategies.
#[derive(Clone, Debug)]
pub struct StructureDataResolver {
    pub kind: ResolverKind,
    pub flags: Vec<String>,
    pub args: Vec<StructureReturnType>,
}

/// The declared return shape of a field: target type name, arrayness and
/// the two nullability flags (`NonNull(List(T))` and `List(NonNull(T))`
/// stay distinguishable).
#[derive(Clone, Debug)]
pub struct StructureReturnType {
    pub name: String,
    pub is_array: bool,
    pub is_nullable: bool,
    pub is_array_nonnullable: bool,
}

/// Stored-data kind plus the optional resolution strategy.
#[derive(Clone, Debug)]
pub struct StructureDataType {
    pub kind: StructureDataKind,
    pub resolver: Option<StructureDataResolver>,
}

/// One declared field of an object type.
#[derive(Clone, Debug)]
pub struct StructureField {
    pub name: String,
    pub description: String,
    pub data_type: StructureDataType,
    pub return_type: StructureReturnType,
}

/// One declared object type with its ordered fields.
#[derive(Clone, Debug)]
pub struct StructureType {
    pub name: String,
    pub description: String,
    pub fields: Vec<StructureField>,
}

/// One declared enum type with its permitted value names.
#[derive(Clone, Debug)]
pub struct StructureEnum {
    pub name: String,
    pub description: String,
    pub values: Vec<String>,
}

/// One declared scalar type.
#[derive(Clone, Debug)]
pub struct StructureScalar {
    pub name: String,
    pub description: String,
}

/// The compiled catalog: name plus the ordered declarations of all three
/// kinds.
#[derive(Clone, Debug)]
pub struct StructureIndex {
    pub name: String,
    pub objects: Vec<StructureType>,
    pub enums: Vec<StructureEnum>,
    pub scalars: Vec<StructureScalar>,
}

/// The result of a catalog lookup: objects are searched before enums;
/// scalars are not indexed.
pub enum StructureItem<'a> {
    Object(&'a StructureType),
    Enum(&'a StructureEnum),
    Missing,
}

impl StructureIndex {
    /// Position of the first object declaration named `name`, or
    /// `objects.len()`.
    pub open spec fn object_idx(self, name: Seq<char>) -> int {
        find_idx(self.objects@, name, |t: StructureType| t.name@)
    }

    /// Position of the first enum declaration named `name`, or
    /// `enums.len()`.
    pub open spec fn enum_idx(self, name: Seq<char>) -> int {
        find_idx(self.enums@, name, |t: StructureEnum| t.name@)
    }

    pub open spec fn has_object(self, name: Seq<char>) -> bool {
        self.object_idx(name) < self.objects@.len()
    }

    pub open spec fn has_enum(self, name: Seq<char>) -> bool {
        self.enum_idx(name) < self.enums@.len()
    }

    /// Look a type name up: the first matching object, else the first
    /// matching enum, else nothing.
    #[verifier::loop_isolation(false)]
    pub fn find_object<'a>(&'a self, name: &str) -> (r: StructureItem<'a>)
        ensures
            self.has_object(name@) ==> (r matches StructureItem::Object(t) && *t
                == self.objects@[self.object_idx(name@)]),
            !self.has_object(name@) && self.has_enum(name@) ==> (r matches StructureItem::Enum(e)
                && *e == self.enums@[self.enum_idx(name@)]),
            !self.has_object(name@) && !self.has_enum(name@) ==> r is Missing,
    {
        let mut i: usize = 0;
        while i < self.objects.len()
            invariant
                i <= self.objects.len(),
                forall|j: int| 0 <= j < i as int ==> #[trigger] self.objects@[j].name@ != name@,
            decreases self.objects.len() - i,
        {
            if streq(self.objects[i].name.as_str(), name) {
                proof {
                    lemma_find_idx_is_first(
                        self.objects@,
                        name@,
                        |t: StructureType| t.name@,
                        i as int,
                    );
                }
                return StructureItem::Object(&self.objects[i]);
            }
            i = i + 1;
        }
        proof {
            lemma_find_idx_is_first(
                self.objects@,
                name@,
                |t: StructureType| t.name@,
                self.objects@.len() as int,
            );
        }
        let mut k: usize = 0;
        while k < self.enums.len()
            invariant
                k <= self.enums.len(),
                forall|j: int| 0 <= j < k as int ==> #[trigger] self.enums@[j].name@ != name@,
            decreases self.enums.len() - k,
        {
            if streq(self.enums[k].name.as_str(), name) {
                proof {
                    lemma_find_idx_is_first(
                        self.enums@,
                        name@,
                        |t: StructureEnum| t.name@,
                        k as int,
                    );
                }
                return StructureItem::Enum(&self.enums[k]);
            }
            k = k + 1;
        }
        proof {
            lemma_find_idx_is_first(
                self.enums@,
                name@,
                |t: StructureEnum| t.name@,
                self.enums@.len() as int,
            );
        }
        StructureItem::Missing
    }

    /// Position of the first object declaration named `name`, for callers
    /// that go on to mutate it in place.
    #[verifier::loop_isolation(false)]
    pub fn find_object_mut(&mut self, name: &str) -> (r: Option<usize>)
        ensures
            *final(self) == *old(self),
            old(self).has_object(name@) ==> r == Some(old(self).object_idx(name@) as usize),
            !old(self).has_object(name@) ==> r is None,
    {
        let mut i: usize = 0;
        while i < self.objects.len()
            invariant
                i <= self.objects.len(),
                forall|j: int| 0 <= j < i as int ==> #[trigger] self.objects@[j].name@ != name@,
            decreases self.objects.len() - i,
        {
            if streq(self.objects[i].name.as_str(), name) {
                proof {
                    lemma_find_idx_is_first(
                        self.objects@,
                        name@,
                        |t: StructureType| t.name@,
                        i as int,
                    );
                }
                return Some(i);
            }
            i = i + 1;
        }
        proof {
            lemma_find_idx_is_first(
                self.objects@,
                name@,
                |t: StructureType| t.name@,
                self.objects@.len() as int,
            );
        }
        None
    }

    /// Append an object declaration.
    pub fn add_object(&mut self, object: StructureType)
        ensures
            final(self).objects@ == old(self).objects@.push(object),
            final(self).enums@ == old(self).enums@,
            final(self).scalars@ == old(self).scalars@,
            final(self).name == old(self).name,
    {
        self.objects.push(object);
    }

    /// Append an enum declaration.
    pub fn add_enum(&mut self, object: StructureEnum)
        ensures
            final(self).enums@ == old(self).enums@.push(object),
            final(self).objects@ == old(self).objects@,
            final(self).scalars@ == old(self).scalars@,
            final(self).name == old(self).name,
    {
        self.enums.push(object);
    }
}

impl StructureType {
    /// Position of the first field named `name`, or `fields.len()`.
    pub open spec fn field_idx(self, name: Seq<char>) -> int {
        find_idx(self.fields@, name, |f: StructureField| f.name@)
    }

    pub open spec fn has_field(self, name: Seq<char>) -> bool {
        self.field_idx(name) < self.fields@.len()
    }

    /// Append a field declaration.
    pub fn add_field(&mut self, field: StructureField)
        ensures
            final(self).fields@ == old(self).fields@.push(field),
            final(self).name == old(self).name,
            final(self).description == old(self).description,
    {
        self.fields.push(field);
    }

    /// The first field named `name`, if any.
    #[verifier::loop_isolation(false)]
    pub fn find_field<'a>(&'a self, name: &str) -> (r: Option<&'a StructureField>)
        ensures
            self.has_field(name@) ==> (r matches Some(f) && *f == self.fields@[self.field_idx(
                name@,
            )]),
            !self.has_field(name@) ==> r is None,
    {
        let mut i: usize = 0;
        while i < self.fields.len()
            invariant
                i <= self.fields.len(),
                forall|j: int| 0 <= j < i as int ==> #[trigger] self.fields@[j].name@ != name@,
            decreases self.fields.len() - i,
        {
            if streq(self.fields[i].name.as_str(), name) {
                proof {
                    lemma_find_idx_is_first(
                        self.fields@,
                        name@,
                        |f: StructureField| f.name@,
                        i as int,
                    );
                }
                return Some(&self.fields[i]);
            }
            i = i + 1;
        }
        proof {
            lemma_find_idx_is_first(
                self.fields@,
                name@,
                |f: StructureField| f.name@,
                self.fields@.len() as int,
            );
        }
        None
    }

    /// Position of the first field named `name`, for callers that go on to
    /// mutate it in place.
    #[verifier::loop_isolation(false)]
    pub fn find_field_mut(&mut self, name: &str) -> (r: Option<usize>)
        ensures
            *final(self) == *old(self),
            old(self).has_field(name@) ==> r == Some(old(self).field_idx(name@) as usize),
            !old(self).has_field(name@) ==> r is None,
    {
        let mut i: usize = 0;
        while i < self.fields.len()
            invariant
                i <= self.fields.len(),
                forall|j: int| 0 <= j < i as int ==> #[trigger] self.fields@[j].name@ != name@,
            decreases self.fields.len() - i,
        {
            if streq(self.fields[i].name.as_str(), name) {
                proof {
                    lemma_find_idx_is_first(
                        self.fields@,
                        name@,
                        |f: StructureField| f.name@,
                        i as int,
                    );
                }
                return Some(i);
            }
            i = i + 1;
        }
        proof {
            lemma_find_idx_is_first(
                self.fields@,
                name@,
                |f: StructureField| f.name@,
                self.fields@.len() as int,
            );
        }
        None
    }
}

/// What the primitive-kind mapping of a terminal type name must produce:
/// ID and String store strings, Int stores 32-bit integers, Float stores
/// floating-point bit patterns, Boolean stores booleans, and every other
/// name is a reference into the catalog.
pub open spec fn kind_models(k: StructureDataKind, name: Seq<char>) -> bool {
    if name == "ID"@ || name == "String"@ {
        k is Str
    } else if name == "Int"@ {
        k is I32
    } else if name == "Float"@ {
        k is F64
    } else if name == "Boolean"@ {
        k is Bool
    } else {
        k matches StructureDataKind::Reference(s) && s@ == name
    }
}

/// Map a terminal type name to the primitive kind its data must have.
pub fn primitive_kind_of(kind: &str) -> (k: StructureDataKind)
    ensures
        kind_models(k, kind@),
{
    if streq(kind, "ID") || streq(kind, "String") {
        StructureDataKind::Str
    } else if streq(kind, "Int") {
        StructureDataKind::I32
    } else if streq(kind, "Float") {
        StructureDataKind::F64
    } else if streq(kind, "Boolean") {
        StructureDataKind::Bool
    } else {
        StructureDataKind::Reference(kind.to_owned())
    }
}

impl StructureField {
    /// Build a field from a name, a description, the terminal type name and
    /// arrayness, mapping the type name to its primitive kind.
    pub fn from(
        name: String,
        description: String,
        kind: String,
        array: bool,
        resolver: Option<StructureDataResolver>,
    ) -> (r: StructureField)
        ensures
            r.name == name,
            r.description == description,
            kind_models(r.data_type.kind, kind@),
            r.data_type.resolver == resolver,
            r.return_type.name == kind,
            r.return_type.is_array == array,
            r.return_type.is_nullable == false,
            r.return_type.is_array_nonnullable == false,
    {
        let data_kind = primitive_kind_of(kind.as_str());
        StructureField {
            name,
            description,
            data_type: StructureDataType { resolver, kind: data_kind },
            return_type: StructureReturnType {
                name: kind,
                is_array: array,
                is_nullable: false,
                is_array_nonnullable: false,
            },
        }
    }
}

} // verus!
