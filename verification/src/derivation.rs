use vstd::prelude::*;

verus! {

/// An unsigned integer representation that an enumeration can be declared with.
#[derive(Clone, Copy, Debug, PartialEq, Eq, Structural)]
pub enum ReprInt {
    U8,
    U16,
    U32,
    U64,
}

/// One attribute of a declaration, as far as the derivation reads it.
pub struct Attribute {
    /// Whether it is an outer attribute (`#[...]`, not `#![...]`).
    pub outer: bool,
    /// Whether its path is the single identifier `repr`.
    pub repr: bool,
    /// For each item between its parentheses, the integer representation
    /// that the item names, if it is an identifier that names one.
    pub args: Vec<Option<ReprInt>>,
}

/// One variant of an enumeration, as far as the derivation reads it.
#[derive(Clone, Copy, Debug, PartialEq, Eq, Structural)]
pub struct Variant {
    /// Whether it is a unit variant: one without fields.
    pub unit: bool,
    /// Whether it has an explicit discriminant.
    pub discriminant: bool,
}

/// What kind of type a declaration declares.
pub enum Data {
    Enum(Vec<Variant>),
    Struct,
    Union,
}

/// Why a declaration cannot be given the enumeration capability.
#[derive(Clone, Copy, Debug, PartialEq, Eq, Structural)]
pub enum DeriveError {
    /// No outer `repr` attribute names an unsigned integer type.
    MissingRepr,
    /// The declaration is not an enumeration.
    NotAnEnum,
    /// The variant at this place has fields.
    VariantHasField(usize),
    /// The variant at this place has an explicit discriminant.
    VariantHasDiscriminant(usize),
}

/// What the capability of a conforming enumeration is made from.
#[derive(Clone, Copy, Debug, PartialEq, Eq, Structural)]
pub struct Derivation {
    /// The integer type that positions are stored in.
    pub repr: ReprInt,
    /// The number of variants: the variant declared at place `k` gets position `k`.
    pub enum_size: usize,
}

/// The ASCII bytes of `repr`.
pub open spec fn repr_name() -> Seq<u8> {
    seq![0x72u8, 0x65u8, 0x70u8, 0x72u8]
}

/// The integer representation whose name the ASCII bytes spell: one of
/// `u8`, `u16`, `u32` and `u64`.
pub open spec fn repr_int_named(name: Seq<u8>) -> Option<ReprInt> {
    if name == seq![0x75u8, 0x38u8] {
        Some(ReprInt::U8)
    } else if name == seq![0x75u8, 0x31u8, 0x36u8] {
        Some(ReprInt::U16)
    } else if name == seq![0x75u8, 0x33u8, 0x32u8] {
        Some(ReprInt::U32)
    } else if name == seq![0x75u8, 0x36u8, 0x34u8] {
        Some(ReprInt::U64)
    } else {
        None
    }
}

/// The last integer representation among the items of one attribute.
pub open spec fn last_named(args: Seq<Option<ReprInt>>) -> Option<ReprInt>
    decreases args.len(),
{
    if args.len() == 0 {
        None
    } else if args.last() is Some {
        args.last()
    } else {
        last_named(args.drop_last())
    }
}

/// The integer representation that a declaration with these attributes has:
/// the last one named in an outer `repr` attribute.
pub open spec fn repr_of(attrs: Seq<Attribute>) -> Option<ReprInt>
    decreases attrs.len(),
{
    if attrs.len() == 0 {
        None
    } else {
        let a = attrs.last();
        if a.outer && a.repr && last_named(a.args@) is Some {
            last_named(a.args@)
        } else {
            repr_of(attrs.drop_last())
        }
    }
}

/// What is wrong with the variant `v` declared at place `k`, if anything:
/// fields are reported before a discriminant.
pub open spec fn fault_of(v: Variant, k: int) -> Option<DeriveError> {
    if !v.unit {
        Some(DeriveError::VariantHasField(k as usize))
    } else if v.discriminant {
        Some(DeriveError::VariantHasDiscriminant(k as usize))
    } else {
        None
    }
}

/// What is wrong with the first faulty variant at or after place `from`, if any is faulty.
pub open spec fn first_fault(variants: Seq<Variant>, from: int) -> Option<DeriveError>
    decreases variants.len() - from,
{
    if from < 0 || from >= variants.len() {
        None
    } else if fault_of(variants[from], from) is Some {
        fault_of(variants[from], from)
    } else {
        first_fault(variants, from + 1)
    }
}

/// What the derivation makes of a declaration. It asks, in this order, for
/// an unsigned integer representation, for an enumeration, and for variants
/// without fields and without discriminants.
pub open spec fn derivation_of(attrs: Seq<Attribute>, data: Data) -> Result<
    Derivation,
    DeriveError,
> {
    match repr_of(attrs) {
        None => Err(DeriveError::MissingRepr),
        Some(repr) => match data {
            Data::Enum(variants) => match first_fault(variants@, 0) {
                Some(fault) => Err(fault),
                None => Ok(Derivation { repr, enum_size: variants.len() }),
            },
            _ => Err(DeriveError::NotAnEnum),
        },
    }
}

/// Whether the ASCII bytes spell `repr`.
pub fn is_repr_name(name: &[u8]) -> (b: bool)
    ensures
        b == (name@ == repr_name()),
{
    let b = name.len() == 4 && name[0] == 0x72 && name[1] == 0x65 && name[2] == 0x70 && name[3]
        == 0x72;
    proof {
        if b {
            assert(name@ =~= repr_name());
        } else if name@.len() == 4 {
            assert(repr_name()[0] == 0x72 && repr_name()[1] == 0x65 && repr_name()[2] == 0x70
                && repr_name()[3] == 0x72);
        }
    }
    b
}

/// The integer representation whose name the ASCII bytes spell, if they spell one.
pub fn repr_int_from_name(name: &[u8]) -> (r: Option<ReprInt>)
    ensures
        r == repr_int_named(name@),
{
    let n = name.len();
    if n == 2 && name[0] == 0x75 && name[1] == 0x38 {
        assert(name@ =~= seq![0x75u8, 0x38u8]);
        Some(ReprInt::U8)
    } else if n == 3 && name[0] == 0x75 && name[1] == 0x31 && name[2] == 0x36 {
        assert(name@ =~= seq![0x75u8, 0x31u8, 0x36u8]);
        Some(ReprInt::U16)
    } else if n == 3 && name[0] == 0x75 && name[1] == 0x33 && name[2] == 0x32 {
        assert(name@ =~= seq![0x75u8, 0x33u8, 0x32u8]);
        Some(ReprInt::U32)
    } else if n == 3 && name[0] == 0x75 && name[1] == 0x36 && name[2] == 0x34 {
        assert(name@ =~= seq![0x75u8, 0x36u8, 0x34u8]);
        Some(ReprInt::U64)
    } else {
        proof {
            let a = seq![0x75u8, 0x38u8];
            let b = seq![0x75u8, 0x31u8, 0x36u8];
            let c = seq![0x75u8, 0x33u8, 0x32u8];
            let d = seq![0x75u8, 0x36u8, 0x34u8];
            assert(a.len() == 2 && a[0] == 0x75 && a[1] == 0x38);
            assert(b.len() == 3 && b[0] == 0x75 && b[1] == 0x31 && b[2] == 0x36);
            assert(c.len() == 3 && c[0] == 0x75 && c[1] == 0x33 && c[2] == 0x32);
            assert(d.len() == 3 && d[0] == 0x75 && d[1] == 0x36 && d[2] == 0x34);
        }
        None
    }
}

/// The integer representation that a declaration with these attributes has.
pub fn get_repr_size(attrs: &Vec<Attribute>) -> (r: Option<ReprInt>)
    ensures
        r == repr_of(attrs@),
{
    let mut repr_size: Option<ReprInt> = None;
    let mut i: usize = 0;
    while i < attrs.len()
        invariant
            i <= attrs.len(),
            repr_size == repr_of(attrs@.take(i as int)),
        decreases attrs.len() - i,
    {
        let a = &attrs[i];
        let mut named: Option<ReprInt> = None;
        let mut j: usize = 0;
        while j < a.args.len()
            invariant
                j <= a.args.len(),
                named == last_named(a.args@.take(j as int)),
            decreases a.args.len() - j,
        {
            proof {
                assert(a.args@.take(j + 1).drop_last() =~= a.args@.take(j as int));
            }
            if a.args[j].is_some() {
                named = a.args[j];
            }
            j += 1;
        }
        proof {
            assert(a.args@.take(a.args.len() as int) =~= a.args@);
            assert(attrs@.take(i + 1).drop_last() =~= attrs@.take(i as int));
        }
        if a.outer && a.repr && named.is_some() {
            repr_size = named;
        }
        i += 1;
    }
    proof {
        assert(attrs@.take(attrs.len() as int) =~= attrs@);
    }
    repr_size
}

/// Decides whether a declaration can be given the enumeration capability,
/// and with what.
pub fn derive_trivial_enum(attrs: &Vec<Attribute>, data: &Data) -> (r: Result<
    Derivation,
    DeriveError,
>)
    ensures
        r == derivation_of(attrs@, *data),
{
    let repr = match get_repr_size(attrs) {
        Some(repr) => repr,
        None => {
            return Err(DeriveError::MissingRepr);
        },
    };
    let variants = match data {
        Data::Enum(variants) => variants,
        _ => {
            return Err(DeriveError::NotAnEnum);
        },
    };
    let mut k: usize = 0;
    while k < variants.len()
        invariant
            k <= variants.len(),
            repr_of(attrs@) == Some(repr),
            *data == Data::Enum(*variants),
            first_fault(variants@, 0) == first_fault(variants@, k as int),
        decreases variants.len() - k,
    {
        proof {
            let fault = fault_of(variants@[k as int], k as int);
            assert(first_fault(variants@, k as int) == if fault is Some {
                fault
            } else {
                first_fault(variants@, k + 1)
            });
        }
        if !variants[k].unit {
            return Err(DeriveError::VariantHasField(k));
        }
        if variants[k].discriminant {
            return Err(DeriveError::VariantHasDiscriminant(k));
        }
        k += 1;
    }
    Ok(Derivation { repr, enum_size: variants.len() })
}

impl DeriveError {
    /// The text of the diagnostic for the error.
    pub open spec fn message_text(self) -> Seq<char> {
        match self {
            DeriveError::MissingRepr => {
                "must have an explicit repr of unsigned integer, e.g. #[repr(u8)]"@
            },
            DeriveError::NotAnEnum => "must be an enum"@,
            DeriveError::VariantHasField(_) => "Variant must not have a field"@,
            DeriveError::VariantHasDiscriminant(_) => {
                "Variant must not have an explicit discriminant"@
            },
        }
    }

    /// The diagnostic for the error.
    pub fn message(&self) -> (msg: &'static str)
        ensures
            msg@ == self.message_text(),
    {
        match self {
            DeriveError::MissingRepr => {
                "must have an explicit repr of unsigned integer, e.g. #[repr(u8)]"
            },
            DeriveError::NotAnEnum => "must be an enum",
            DeriveError::VariantHasField(_) => "Variant must not have a field",
            DeriveError::VariantHasDiscriminant(_) => {
                "Variant must not have an explicit discriminant"
            },
        }
    }

    /// The place of the variant that the error is about, if it is about one.
    pub fn variant(&self) -> (place: Option<usize>)
        ensures
            place == match *self {
                DeriveError::VariantHasField(k) => Some(k),
                DeriveError::VariantHasDiscriminant(k) => Some(k),
                _ => None,
            },
    {
        match self {
            DeriveError::VariantHasField(k) => Some(*k),
            DeriveError::VariantHasDiscriminant(k) => Some(*k),
            _ => None,
        }
    }
}

} // verus!
