//! How a builder treats each field of a struct, decided from the shapes of
//! the field's attributes and of its type.

use vstd::prelude::*;
use vstd::string::StringExecFns;

verus! {

/// The shape of one argument of an attribute list.
#[derive(Debug, PartialEq, Eq)]
pub enum MetaArg {
    /// `name = value`. The name is absent where it is a longer path, and
    /// `text` tells whether the value is a string literal.
    NameValue { name: Option<String>, text: bool },
    /// Anything that is not `name = value`.
    Other,
}

/// The shape of one attribute of a field.
#[derive(Debug, PartialEq, Eq)]
pub enum FieldAttr {
    /// `#[name(args...)]`. The name is absent where it is a longer path.
    List { name: Option<String>, args: Vec<MetaArg> },
    /// An attribute of any other form.
    Other,
}

/// The shape of one generic argument.
#[derive(Clone, Copy, Debug, PartialEq, Eq, Structural)]
pub enum GenericArg {
    /// A type.
    Type,
    /// A lifetime, a constant, a binding or a constraint.
    Other,
}

/// One segment of a path, with its arguments in angle brackets if it has
/// any.
#[derive(Debug, PartialEq, Eq)]
pub struct PathSegment {
    pub name: String,
    pub args: Option<Vec<GenericArg>>,
}

/// The shape of a field's type.
#[derive(Debug, PartialEq, Eq)]
pub enum TypeShape {
    /// A path such as `Vec<String>` or `std::option::Option<u8>`;
    /// `qualified` tells whether it starts with `<T as Trait>`.
    Path { qualified: bool, segments: Vec<PathSegment> },
    /// Any other type.
    Other,
}

/// What an argument of `#[builder(...)]` says.
#[derive(Clone, Copy, Debug, PartialEq, Eq, Structural)]
pub enum BuilderArg {
    /// `each = "name"`: a string names the one-at-a-time setter.
    EachText,
    /// `each = value` where the value is no string.
    EachOther,
    /// `other = value`: a name other than `each`.
    OtherNameValue,
    /// Anything that is not `name = value`.
    NotNameValue,
}

/// What a field's type is to the builder.
#[derive(Clone, Copy, Debug, PartialEq, Eq, Structural)]
pub enum FieldType {
    /// `Option<T>` for one type `T`.
    Option,
    /// `Vec<T>` for one type `T`.
    Vec,
    /// Any other type.
    Other,
}

/// How the builder treats a field.
#[derive(Clone, Copy, Debug, PartialEq, Eq, Structural)]
pub enum FieldKind {
    /// The field is set in one call and has to be set.
    AllAtOnce,
    /// The field is set in one call and may stay unset.
    Optional,
    /// The field is filled one element at a time by a setter whose name is
    /// given by argument `arg` of attribute `attr`.
    Repeated { attr: usize, arg: usize },
}

/// The setters of a field that is filled one element at a time.
#[derive(Clone, Copy, Debug, PartialEq, Eq, Structural)]
pub enum Setters {
    /// Only the setter that adds one element: it has the field's own name.
    Each,
    /// The setter that adds one element and, under the field's name, the
    /// setter that replaces the whole.
    EachAndWhole,
}

/// A `#[builder(...)]` attribute that is not of the form
/// `builder(each = "...")`.
#[derive(Clone, Copy, Debug, PartialEq, Eq, Structural)]
pub struct FieldError {
    /// The place of the attribute among the field's attributes.
    pub attr: usize,
}

/// Whether a name is present and reads `text`.
pub open spec fn is_named(name: Option<String>, text: Seq<char>) -> bool {
    name matches Some(name) && name@ == text
}

/// What an argument of `#[builder(...)]` says.
pub open spec fn builder_arg(arg: MetaArg) -> BuilderArg {
    match arg {
        MetaArg::NameValue { name, text } => if is_named(name, "each"@) {
            if text {
                BuilderArg::EachText
            } else {
                BuilderArg::EachOther
            }
        } else {
            BuilderArg::OtherNameValue
        },
        MetaArg::Other => BuilderArg::NotNameValue,
    }
}

/// Whether an attribute is `#[builder(...)]`.
pub open spec fn is_builder_attr(attr: FieldAttr) -> bool {
    attr matches FieldAttr::List { name, .. } && is_named(name, "builder"@)
}

/// Whether an argument settles what its attribute means: the first such
/// argument of an attribute is the only one that counts.
pub open spec fn is_decisive(arg: MetaArg) -> bool {
    builder_arg(arg) is EachText || builder_arg(arg) is OtherNameValue
}

/// Whether `j` is the place of the first decisive argument.
pub open spec fn first_decisive(args: Seq<MetaArg>, j: int) -> bool {
    &&& 0 <= j < args.len()
    &&& is_decisive(args[j])
    &&& forall|k: int| 0 <= k < j ==> !is_decisive(#[trigger] args[k])
}

/// Whether argument `j` of this attribute names the one-at-a-time setter.
pub open spec fn names_setter_at(attr: FieldAttr, j: int) -> bool {
    &&& is_builder_attr(attr)
    &&& first_decisive(attr->args@, j)
    &&& builder_arg(attr->args@[j]) is EachText
}

/// Whether this attribute names the one-at-a-time setter.
pub open spec fn names_setter(attr: FieldAttr) -> bool {
    exists|j: int| names_setter_at(attr, j)
}

/// Whether this attribute is refused: its first decisive argument gives a
/// value to a name other than `each`.
pub open spec fn is_refused(attr: FieldAttr) -> bool {
    &&& is_builder_attr(attr)
    &&& exists|j: int|
        first_decisive(attr->args@, j) && builder_arg(attr->args@[j]) is OtherNameValue
}

/// Whether the type is `wrapper<T>`: an unqualified path of one segment
/// named `wrapper` with one argument, which is a type.
pub open spec fn wraps_one_type(ty: TypeShape, wrapper: Seq<char>) -> bool {
    &&& ty matches TypeShape::Path { qualified, segments }
    &&& !qualified
    &&& segments@.len() == 1
    &&& segments@[0].name@ == wrapper
    &&& segments@[0].args matches Some(args)
    &&& args@.len() == 1
    &&& args@[0] is Type
}

/// What a field's type is to the builder.
pub open spec fn field_type_of(ty: TypeShape) -> FieldType {
    if wraps_one_type(ty, "Option"@) {
        FieldType::Option
    } else if wraps_one_type(ty, "Vec"@) {
        FieldType::Vec
    } else {
        FieldType::Other
    }
}

/// Whether `kind` is how a field with these attributes and this type is
/// treated, given that no attribute is refused. `Option<T>` is optional. A
/// `Vec<T>` is filled one element at a time if an attribute names the
/// setter, and the last attribute that does so counts. Everything else is
/// set all at once.
pub open spec fn is_kind_of(attrs: Seq<FieldAttr>, ty: FieldType, kind: FieldKind) -> bool {
    match ty {
        FieldType::Option => kind is Optional,
        FieldType::Other => kind is AllAtOnce,
        FieldType::Vec => match kind {
            FieldKind::Optional => false,
            FieldKind::AllAtOnce => forall|i: int|
                0 <= i < attrs.len() ==> !names_setter(#[trigger] attrs[i]),
            FieldKind::Repeated { attr, arg } => {
                &&& attr < attrs.len()
                &&& names_setter_at(attrs[attr as int], arg as int)
                &&& forall|i: int| attr < i < attrs.len() ==> !names_setter(#[trigger] attrs[i])
            },
        },
    }
}

/// A field is treated in one way only.
pub proof fn lemma_kind_is_unique(
    attrs: Seq<FieldAttr>,
    ty: FieldType,
    first: FieldKind,
    second: FieldKind,
)
    requires
        is_kind_of(attrs, ty, first),
        is_kind_of(attrs, ty, second),
    ensures
        first == second,
{
    if ty is Vec {
        match (first, second) {
            (
                FieldKind::Repeated { attr: a1, arg: b1 },
                FieldKind::Repeated { attr: a2, arg: b2 },
            ) => {
                assert(names_setter(attrs[a1 as int]));
                assert(names_setter(attrs[a2 as int]));
                assert(a1 == a2);
                let args = attrs[a1 as int]->args@;
                if b1 < b2 {
                    assert(is_decisive(args[b1 as int]));
                }
                if b2 < b1 {
                    assert(is_decisive(args[b2 as int]));
                }
            },
            (FieldKind::Repeated { attr, arg }, FieldKind::AllAtOnce) => {
                assert(names_setter(attrs[attr as int]));
            },
            (FieldKind::AllAtOnce, FieldKind::Repeated { attr, arg }) => {
                assert(names_setter(attrs[attr as int]));
            },
            _ => {},
        }
    }
}

/// Tells whether a name is present and reads `text`.
fn name_is(name: &Option<String>, text: &str) -> (same: bool)
    ensures
        same == is_named(*name, text@),
{
    match name {
        Some(name) => *name == String::from_str(text),
        None => false,
    }
}

impl MetaArg {
    /// Reads the argument as one of `#[builder(...)]`.
    pub fn builder_arg(&self) -> (arg: BuilderArg)
        ensures
            arg == builder_arg(*self),
    {
        match self {
            MetaArg::NameValue { name, text } => if name_is(name, "each") {
                if *text {
                    BuilderArg::EachText
                } else {
                    BuilderArg::EachOther
                }
            } else {
                BuilderArg::OtherNameValue
            },
            MetaArg::Other => BuilderArg::NotNameValue,
        }
    }
}

impl TypeShape {
    /// Tells whether the type is `wrapper<T>` for one type `T`.
    fn wraps_one_type(&self, wrapper: &str) -> (wraps: bool)
        ensures
            wraps == wraps_one_type(*self, wrapper@),
    {
        match self {
            TypeShape::Path { qualified, segments } => {
                if *qualified || segments.len() != 1 {
                    return false;
                }
                let segment = &segments[0];
                if segment.name != String::from_str(wrapper) {
                    return false;
                }
                match &segment.args {
                    Some(args) => args.len() == 1 && match args[0] {
                        GenericArg::Type => true,
                        GenericArg::Other => false,
                    },
                    None => false,
                }
            },
            TypeShape::Other => false,
        }
    }

    /// Tells what the type is to the builder.
    pub fn field_type(&self) -> (ty: FieldType)
        ensures
            ty == field_type_of(*self),
    {
        if self.wraps_one_type("Option") {
            FieldType::Option
        } else if self.wraps_one_type("Vec") {
            FieldType::Vec
        } else {
            FieldType::Other
        }
    }
}

/// Decides which setters a repeated field gets: the setter for the whole
/// is left out where the one-at-a-time setter takes its name.
pub fn repeated_setters(field_name: &String, each_name: &String) -> (setters: Setters)
    ensures
        setters == if field_name@ == each_name@ {
            Setters::Each
        } else {
            Setters::EachAndWhole
        },
{
    if *field_name == *each_name {
        Setters::Each
    } else {
        Setters::EachAndWhole
    }
}

/// The error that `build` gives for a field that has to be set and was
/// not.
pub fn missing_field_message(field_name: &str) -> (message: String)
    ensures
        message@ == "Missing required field "@ + field_name@,
{
    String::from_str("Missing required field ").concat(field_name)
}

/// Finds the first decisive argument.
fn find_decisive(args: &Vec<MetaArg>) -> (found: Option<usize>)
    ensures
        match found {
            Some(j) => first_decisive(args@, j as int),
            None => forall|k: int| 0 <= k < args.len() ==> !is_decisive(#[trigger] args@[k]),
        },
{
    let mut j: usize = 0;
    while j < args.len()
        invariant
            j <= args.len(),
            forall|k: int| 0 <= k < j ==> !is_decisive(#[trigger] args@[k]),
        decreases args.len() - j,
    {
        match args[j].builder_arg() {
            BuilderArg::EachText | BuilderArg::OtherNameValue => {
                return Some(j);
            },
            _ => {},
        }
        j += 1;
    }
    None
}

/// Decides how the builder treats a field. The attributes are read in
/// order, and the first refused one is the error, whatever the type.
pub fn convert_field(attrs: &Vec<FieldAttr>, ty: &TypeShape) -> (result: Result<
    FieldKind,
    FieldError,
>)
    ensures
        match result {
            Ok(kind) => {
                &&& forall|i: int| 0 <= i < attrs.len() ==> !is_refused(#[trigger] attrs@[i])
                &&& is_kind_of(attrs@, field_type_of(*ty), kind)
            },
            Err(error) => {
                &&& error.attr < attrs.len()
                &&& is_refused(attrs@[error.attr as int])
                &&& forall|i: int| 0 <= i < error.attr ==> !is_refused(#[trigger] attrs@[i])
            },
        },
{
    let mut each: Option<(usize, usize)> = None;
    let mut i: usize = 0;
    while i < attrs.len()
        invariant
            i <= attrs.len(),
            forall|k: int| 0 <= k < i ==> !is_refused(#[trigger] attrs@[k]),
            match each {
                Some((attr, arg)) => {
                    &&& attr < i
                    &&& names_setter_at(attrs@[attr as int], arg as int)
                    &&& forall|k: int| attr < k < i ==> !names_setter(#[trigger] attrs@[k])
                },
                None => forall|k: int| 0 <= k < i ==> !names_setter(#[trigger] attrs@[k]),
            },
        decreases attrs.len() - i,
    {
        match &attrs[i] {
            FieldAttr::List { name, args } => {
                if name_is(name, "builder") {
                    match find_decisive(args) {
                        Some(j) => {
                            match args[j].builder_arg() {
                                BuilderArg::EachText => {
                                    each = Some((i, j));
                                },
                                _ => {
                                    return Err(FieldError { attr: i });
                                },
                            }
                        },
                        None => {},
                    }
                }
            },
            FieldAttr::Other => {},
        }
        i += 1;
    }
    Ok(
        match ty.field_type() {
            FieldType::Option => FieldKind::Optional,
            FieldType::Vec => match each {
                Some((attr, arg)) => FieldKind::Repeated { attr, arg },
                None => FieldKind::AllAtOnce,
            },
            FieldType::Other => FieldKind::AllAtOnce,
        },
    )
}

} // verus!
