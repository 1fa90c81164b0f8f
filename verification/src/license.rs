//! The license value type: parsing, display, synonyms, canonical templates,
//! and the compatibility oracle over a fixed lattice.
//!
//! Identifiers follow the SPDX short names; a license "with exception" is
//! treated as its own identifier.

use vstd::prelude::*;
use vstd::string::StrSliceExecFns;
use vstd::string::StringExecFns;

use vstd::multiset::Multiset;

use crate::Compat;
use crate::textops::chars_cmp;
use crate::textops::lemma_chars_cmp_flip;
use crate::textops::lemma_chars_cmp_trans;
use crate::textops::str_cmp;

verus! {

/// A license expression: one of the enumerated canonical identifiers, free
/// text (`Custom`), a reference to a file shipped with the package
/// (`File`), a disjunction of expressions (`Multiple`), or nothing at all.
#[derive(Debug, PartialEq, Eq)]
#[allow(non_camel_case_types)]
pub enum License {
    Unlicense,
    BSD_0_Clause,
    CC0_1_0,
    MIT,
    X11,
    BSD_2_Clause,
    BSD_3_Clause,
    Apache_2_0,
    Apache_2_0_WITH_LLVM_exception,
    LGPL_2_0,
    LGPL_2_1,
    LGPL_2_1Plus,
    LGPL_3_0,
    LGPL_3_0Plus,
    MPL_1_1,
    MPL_2_0,
    GPL_2_0,
    GPL_2_0Plus,
    GPL_3_0,
    GPL_3_0Plus,
    AGPL_3_0,
    AGPL_3_0Plus,
    Zlib,
    Custom(String),
    File(String),
    Multiple(Vec<License>),
    Unspecified,
}

/// The mathematical model of a `License`: strings become character
/// sequences and member vectors become sequences.
#[allow(non_camel_case_types)]
pub enum LicenseView {
    Unlicense,
    BSD_0_Clause,
    CC0_1_0,
    MIT,
    X11,
    BSD_2_Clause,
    BSD_3_Clause,
    Apache_2_0,
    Apache_2_0_WITH_LLVM_exception,
    LGPL_2_0,
    LGPL_2_1,
    LGPL_2_1Plus,
    LGPL_3_0,
    LGPL_3_0Plus,
    MPL_1_1,
    MPL_2_0,
    GPL_2_0,
    GPL_2_0Plus,
    GPL_3_0,
    GPL_3_0Plus,
    AGPL_3_0,
    AGPL_3_0Plus,
    Zlib,
    Custom(Seq<char>),
    File(Seq<char>),
    Multiple(Seq<LicenseView>),
    Unspecified,
}

pub open spec fn license_view(l: License) -> LicenseView
    decreases l,
{
    match l {
        License::Unlicense => LicenseView::Unlicense,
        License::BSD_0_Clause => LicenseView::BSD_0_Clause,
        License::CC0_1_0 => LicenseView::CC0_1_0,
        License::MIT => LicenseView::MIT,
        License::X11 => LicenseView::X11,
        License::BSD_2_Clause => LicenseView::BSD_2_Clause,
        License::BSD_3_Clause => LicenseView::BSD_3_Clause,
        License::Apache_2_0 => LicenseView::Apache_2_0,
        License::Apache_2_0_WITH_LLVM_exception => LicenseView::Apache_2_0_WITH_LLVM_exception,
        License::LGPL_2_0 => LicenseView::LGPL_2_0,
        License::LGPL_2_1 => LicenseView::LGPL_2_1,
        License::LGPL_2_1Plus => LicenseView::LGPL_2_1Plus,
        License::LGPL_3_0 => LicenseView::LGPL_3_0,
        License::LGPL_3_0Plus => LicenseView::LGPL_3_0Plus,
        License::MPL_1_1 => LicenseView::MPL_1_1,
        License::MPL_2_0 => LicenseView::MPL_2_0,
        License::GPL_2_0 => LicenseView::GPL_2_0,
        License::GPL_2_0Plus => LicenseView::GPL_2_0Plus,
        License::GPL_3_0 => LicenseView::GPL_3_0,
        License::GPL_3_0Plus => LicenseView::GPL_3_0Plus,
        License::AGPL_3_0 => LicenseView::AGPL_3_0,
        License::AGPL_3_0Plus => LicenseView::AGPL_3_0Plus,
        License::Zlib => LicenseView::Zlib,
        License::Custom(s) => LicenseView::Custom(s@),
        License::File(p) => LicenseView::File(p@),
        License::Multiple(v) => LicenseView::Multiple(member_views(v@)),
        License::Unspecified => LicenseView::Unspecified,
    }
}

/// The views of a sequence of licenses, in order.
pub open spec fn member_views(s: Seq<License>) -> Seq<LicenseView>
    decreases s,
{
    if s.len() == 0 {
        Seq::empty()
    } else {
        member_views(s.drop_last()).push(license_view(s.last()))
    }
}

pub broadcast proof fn lemma_member_views(s: Seq<License>)
    ensures
        (#[trigger] member_views(s)).len() == s.len(),
        forall|i: int| 0 <= i < s.len() ==> member_views(s)[i] == license_view(s[i]),
    decreases s.len(),
{
    if s.len() > 0 {
        lemma_member_views(s.drop_last());
    }
}

impl View for License {
    type V = LicenseView;

    open spec fn view(&self) -> LicenseView {
        license_view(*self)
    }
}

impl Default for License {
    /// An absent license.
    fn default() -> (r: License)
        ensures
            r == License::Unspecified,
    {
        License::Unspecified
    }
}

/// A well-formed expression: every (possibly nested) `Multiple` has at
/// least one member.  Parsing only ever produces well-formed values.
pub open spec fn wf_view(l: LicenseView) -> bool
    decreases l,
{
    match l {
        LicenseView::Multiple(ls) => ls.len() > 0 && (forall|i: int|
            0 <= i < ls.len() ==> wf_view(#[trigger] ls[i])),
        _ => true,
    }
}

/// The position of each identifier in the fixed total order used to sort
/// the members of a `Multiple` expression (the enumeration order).
pub open spec fn rank(l: LicenseView) -> int {
    match l {
        LicenseView::Unlicense => 0,
        LicenseView::BSD_0_Clause => 1,
        LicenseView::CC0_1_0 => 2,
        LicenseView::MIT => 3,
        LicenseView::X11 => 4,
        LicenseView::BSD_2_Clause => 5,
        LicenseView::BSD_3_Clause => 6,
        LicenseView::Apache_2_0 => 7,
        LicenseView::Apache_2_0_WITH_LLVM_exception => 8,
        LicenseView::LGPL_2_0 => 9,
        LicenseView::LGPL_2_1 => 10,
        LicenseView::LGPL_2_1Plus => 11,
        LicenseView::LGPL_3_0 => 12,
        LicenseView::LGPL_3_0Plus => 13,
        LicenseView::MPL_1_1 => 14,
        LicenseView::MPL_2_0 => 15,
        LicenseView::GPL_2_0 => 16,
        LicenseView::GPL_2_0Plus => 17,
        LicenseView::GPL_3_0 => 18,
        LicenseView::GPL_3_0Plus => 19,
        LicenseView::AGPL_3_0 => 20,
        LicenseView::AGPL_3_0Plus => 21,
        LicenseView::Zlib => 22,
        LicenseView::Custom(_) => 23,
        LicenseView::File(_) => 24,
        LicenseView::Multiple(_) => 25,
        LicenseView::Unspecified => 26,
    }
}

/// The fixed total order over license expressions: by rank, with `Custom`
/// and `File` ties broken by their text.  Members of an expression are
/// never themselves `Multiple`, so no tie rule is needed there.
pub open spec fn lic_cmp(a: LicenseView, b: LicenseView) -> int {
    if rank(a) < rank(b) {
        -1
    } else if rank(a) > rank(b) {
        1
    } else {
        match (a, b) {
            (LicenseView::Custom(x), LicenseView::Custom(y)) => chars_cmp(x, y),
            (LicenseView::File(x), LicenseView::File(y)) => chars_cmp(x, y),
            _ => 0,
        }
    }
}

pub proof fn lemma_lic_cmp_flip(a: LicenseView, b: LicenseView)
    ensures
        lic_cmp(a, b) == -lic_cmp(b, a),
{
    if rank(a) == rank(b) {
        match (a, b) {
            (LicenseView::Custom(x), LicenseView::Custom(y)) => lemma_chars_cmp_flip(x, y),
            (LicenseView::File(x), LicenseView::File(y)) => lemma_chars_cmp_flip(x, y),
            _ => {},
        }
    }
}

pub proof fn lemma_lic_cmp_trans(a: LicenseView, b: LicenseView, c: LicenseView)
    requires
        lic_cmp(a, b) <= 0,
        lic_cmp(b, c) <= 0,
    ensures
        lic_cmp(a, c) <= 0,
{
    if rank(a) == rank(b) && rank(b) == rank(c) {
        match (a, b) {
            (LicenseView::Custom(x), LicenseView::Custom(y)) => {
                if let LicenseView::Custom(z) = c {
                    lemma_chars_cmp_trans(x, y, z);
                }
            },
            (LicenseView::File(x), LicenseView::File(y)) => {
                if let LicenseView::File(z) = c {
                    lemma_chars_cmp_trans(x, y, z);
                }
            },
            _ => {},
        }
    }
}

impl License {
    /// The position of this value in the fixed total order.
    pub fn rank_of(&self) -> (r: u8)
        ensures
            r as int == rank(self@),
    {
        match self {
            License::Unlicense => 0,
            License::BSD_0_Clause => 1,
            License::CC0_1_0 => 2,
            License::MIT => 3,
            License::X11 => 4,
            License::BSD_2_Clause => 5,
            License::BSD_3_Clause => 6,
            License::Apache_2_0 => 7,
            License::Apache_2_0_WITH_LLVM_exception => 8,
            License::LGPL_2_0 => 9,
            License::LGPL_2_1 => 10,
            License::LGPL_2_1Plus => 11,
            License::LGPL_3_0 => 12,
            License::LGPL_3_0Plus => 13,
            License::MPL_1_1 => 14,
            License::MPL_2_0 => 15,
            License::GPL_2_0 => 16,
            License::GPL_2_0Plus => 17,
            License::GPL_3_0 => 18,
            License::GPL_3_0Plus => 19,
            License::AGPL_3_0 => 20,
            License::AGPL_3_0Plus => 21,
            License::Zlib => 22,
            License::Custom(_) => 23,
            License::File(_) => 24,
            License::Multiple(_) => 25,
            License::Unspecified => 26,
        }
    }

    /// Compares two license values in the fixed total order.
    pub fn cmp_with(&self, other: &License) -> (r: i8)
        ensures
            r as int == lic_cmp(self@, other@),
    {
        let ra = self.rank_of();
        let rb = other.rank_of();
        if ra < rb {
            -1
        } else if ra > rb {
            1
        } else {
            match (self, other) {
                (License::Custom(x), License::Custom(y)) => str_cmp(x.as_str(), y.as_str()),
                (License::File(x), License::File(y)) => str_cmp(x.as_str(), y.as_str()),
                _ => 0,
            }
        }
    }
}

/// The canonical short string of each identifier; `Multiple` members are
/// joined by `" / "` and `Unspecified` reads as a human message.
pub open spec fn display_spec(l: LicenseView) -> Seq<char>
    decreases l,
{
    match l {
        LicenseView::Unlicense => "Unlicense"@,
        LicenseView::BSD_0_Clause => "0BSD"@,
        LicenseView::CC0_1_0 => "CC0-1.0"@,
        LicenseView::MIT => "MIT"@,
        LicenseView::X11 => "X11"@,
        LicenseView::BSD_2_Clause => "BSD-2-Clause"@,
        LicenseView::BSD_3_Clause => "BSD-3-Clause"@,
        LicenseView::Apache_2_0 => "Apache-2.0"@,
        LicenseView::Apache_2_0_WITH_LLVM_exception => "Apache-2.0 WITH LLVM-exception"@,
        LicenseView::LGPL_2_0 => "LGPL-2.0-only"@,
        LicenseView::LGPL_2_1 => "LGPL-2.1-only"@,
        LicenseView::LGPL_2_1Plus => "LGPL-2.1-or-later"@,
        LicenseView::LGPL_3_0 => "LGPL-3.0-only"@,
        LicenseView::LGPL_3_0Plus => "LGPL-3.0-or-later"@,
        LicenseView::MPL_1_1 => "MPL-1.1"@,
        LicenseView::MPL_2_0 => "MPL-2.0"@,
        LicenseView::GPL_2_0 => "GPL-2.0-only"@,
        LicenseView::GPL_2_0Plus => "GPL-2.0-or-later"@,
        LicenseView::GPL_3_0 => "GPL-3.0-only"@,
        LicenseView::GPL_3_0Plus => "GPL-3.0-or-later"@,
        LicenseView::AGPL_3_0 => "AGPL-3.0-only"@,
        LicenseView::AGPL_3_0Plus => "AGPL-3.0-or-later"@,
        LicenseView::Zlib => "Zlib"@,
        LicenseView::Custom(s) => s,
        LicenseView::File(f) => "License specified in file ("@ + f + ")"@,
        LicenseView::Multiple(ls) => display_members(ls),
        LicenseView::Unspecified => "No license specified"@,
    }
}

/// The members of an expression joined by `" / "`, in order.
pub open spec fn display_members(ls: Seq<LicenseView>) -> Seq<char>
    decreases ls,
{
    if ls.len() == 0 {
        Seq::empty()
    } else if ls.len() == 1 {
        display_spec(ls[0])
    } else {
        display_members(ls.drop_last()) + " / "@ + display_spec(ls.last())
    }
}

impl License {
    /// Renders the expression as its canonical string.
    pub fn display(&self) -> (r: String)
        requires
            wf_view(self@),
        ensures
            r@ == display_spec(self@),
        decreases *self,
    {
        broadcast use lemma_member_views;

        match self {
            License::Unlicense => "Unlicense".to_owned(),
            License::BSD_0_Clause => "0BSD".to_owned(),
            License::CC0_1_0 => "CC0-1.0".to_owned(),
            License::MIT => "MIT".to_owned(),
            License::X11 => "X11".to_owned(),
            License::BSD_2_Clause => "BSD-2-Clause".to_owned(),
            License::BSD_3_Clause => "BSD-3-Clause".to_owned(),
            License::Apache_2_0 => "Apache-2.0".to_owned(),
            License::Apache_2_0_WITH_LLVM_exception => "Apache-2.0 WITH LLVM-exception".to_owned(),
            License::LGPL_2_0 => "LGPL-2.0-only".to_owned(),
            License::LGPL_2_1 => "LGPL-2.1-only".to_owned(),
            License::LGPL_2_1Plus => "LGPL-2.1-or-later".to_owned(),
            License::LGPL_3_0 => "LGPL-3.0-only".to_owned(),
            License::LGPL_3_0Plus => "LGPL-3.0-or-later".to_owned(),
            License::MPL_1_1 => "MPL-1.1".to_owned(),
            License::MPL_2_0 => "MPL-2.0".to_owned(),
            License::GPL_2_0 => "GPL-2.0-only".to_owned(),
            License::GPL_2_0Plus => "GPL-2.0-or-later".to_owned(),
            License::GPL_3_0 => "GPL-3.0-only".to_owned(),
            License::GPL_3_0Plus => "GPL-3.0-or-later".to_owned(),
            License::AGPL_3_0 => "AGPL-3.0-only".to_owned(),
            License::AGPL_3_0Plus => "AGPL-3.0-or-later".to_owned(),
            License::Zlib => "Zlib".to_owned(),
            License::Custom(s) => s.clone(),
            License::File(f) => {
                let mut out = "License specified in file (".to_owned();
                out.append(f.as_str());
                out.append(")");
                out
            },
            License::Multiple(ls) => {
                let ghost vs = member_views(ls@);
                proof {
                    assert(self@ == LicenseView::Multiple(vs));
                    assert(forall|i: int| 0 <= i < ls@.len() ==> wf_view(#[trigger] vs[i]));
                    assert(vs[0] == license_view(ls@[0]));
                    assert(decreases_to!(*self => ls@[0]));
                }
                let first = &ls[0];
                let mut out = first.display();
                let mut j: usize = 1;
                proof {
                    assert(vs.subrange(0, 1) =~= seq![vs[0]]);
                }
                #[verifier::loop_isolation(false)]
                while j < ls.len()
                    invariant
                        1 <= j <= ls.len(),
                        vs == member_views(ls@),
                        vs.len() == ls@.len(),
                        forall|i: int| 0 <= i < ls@.len() ==> #[trigger] vs[i] == license_view(
                            ls@[i],
                        ),
                        forall|i: int| 0 <= i < ls@.len() ==> wf_view(#[trigger] vs[i]),
                        out@ == display_members(vs.subrange(0, j as int)),
                    decreases ls.len() - j,
                {
                    proof {
                        assert(vs[j as int] == license_view(ls@[j as int]));
                        assert(wf_view(license_view(ls@[j as int])));
                        assert(decreases_to!(*self => ls@[j as int]));
                    }
                    let piece = (&ls[j]).display();
                    out.append(" / ");
                    out.append(piece.as_str());
                    proof {
                        let pre = vs.subrange(0, j as int);
                        let post = vs.subrange(0, j as int + 1);
                        assert(post.drop_last() =~= pre);
                        assert(post.last() == vs[j as int]);
                    }
                    j = j + 1;
                }
                proof {
                    assert(vs.subrange(0, vs.len() as int) =~= vs);
                }
                out
            },
            License::Unspecified => "No license specified".to_owned(),
        }
    }
}

/// The canonical identifier (or historical alias) a trimmed string names,
/// if any; tried in the fixed table order.
pub open spec fn canon_of(t: Seq<char>) -> Option<LicenseView> {
    if t == "Unlicense"@ {
        Option::Some(LicenseView::Unlicense)
    } else if t == "0BSD"@ {
        Option::Some(LicenseView::BSD_0_Clause)
    } else if t == "CC0-1.0"@ {
        Option::Some(LicenseView::CC0_1_0)
    } else if t == "MIT"@ {
        Option::Some(LicenseView::MIT)
    } else if t == "X11"@ {
        Option::Some(LicenseView::X11)
    } else if t == "BSD-2-Clause"@ {
        Option::Some(LicenseView::BSD_2_Clause)
    } else if t == "BSD-3-Clause"@ {
        Option::Some(LicenseView::BSD_3_Clause)
    } else if t == "Apache-2.0"@ {
        Option::Some(LicenseView::Apache_2_0)
    } else if t == "Apache-2.0 WITH LLVM-exception"@ {
        Option::Some(LicenseView::Apache_2_0_WITH_LLVM_exception)
    } else if t == "LGPL-2.0-only"@ || t == "LGPL-2.0"@ {
        Option::Some(LicenseView::LGPL_2_0)
    } else if t == "LGPL-2.1-only"@ || t == "LGPL-2.1"@ {
        Option::Some(LicenseView::LGPL_2_1)
    } else if t == "LGPL-2.1-or-later"@ || t == "LGPL-2.1+"@ {
        Option::Some(LicenseView::LGPL_2_1Plus)
    } else if t == "LGPL-3.0-only"@ || t == "LGPL-3.0"@ {
        Option::Some(LicenseView::LGPL_3_0)
    } else if t == "LGPL-3.0-or-later"@ || t == "LGPL-3.0+"@ {
        Option::Some(LicenseView::LGPL_3_0Plus)
    } else if t == "MPL-1.1"@ {
        Option::Some(LicenseView::MPL_1_1)
    } else if t == "MPL-2.0"@ {
        Option::Some(LicenseView::MPL_2_0)
    } else if t == "GPL-2.0-only"@ || t == "GPL-2.0"@ {
        Option::Some(LicenseView::GPL_2_0)
    } else if t == "GPL-2.0-or-later"@ || t == "GPL-2.0+"@ {
        Option::Some(LicenseView::GPL_2_0Plus)
    } else if t == "GPL-3.0-only"@ || t == "GPL-3.0"@ {
        Option::Some(LicenseView::GPL_3_0)
    } else if t == "GPL-3.0-or-later"@ || t == "GPL-3.0+"@ {
        Option::Some(LicenseView::GPL_3_0Plus)
    } else if t == "AGPL-3.0-only"@ || t == "AGPL-3.0"@ {
        Option::Some(LicenseView::AGPL_3_0)
    } else if t == "AGPL-3.0-or-later"@ || t == "AGPL-3.0+"@ {
        Option::Some(LicenseView::AGPL_3_0Plus)
    } else if t == "Zlib"@ {
        Option::Some(LicenseView::Zlib)
    } else {
        Option::None
    }
}

/// Whether position `i` starts the four-character `" OR "` separator.
pub open spec fn or_at(t: Seq<char>, i: int) -> bool {
    &&& 0 <= i
    &&& i + 3 < t.len()
    &&& t[i] == ' '
    &&& t[i + 1] == 'O'
    &&& t[i + 2] == 'R'
    &&& t[i + 3] == ' '
}

/// Whether some position at or after `i` starts a separator: a `'/'` or
/// the substring `" OR "`.
pub open spec fn has_sep_from(t: Seq<char>, i: int) -> bool
    decreases t.len() - i,
{
    if i < 0 || i >= t.len() {
        false
    } else if t[i] == '/' || or_at(t, i) {
        true
    } else {
        has_sep_from(t, i + 1)
    }
}

/// The pieces of `t` between separators, scanning left to right from
/// position `i` with the current piece starting at `start`; `'/'` is
/// checked before `" OR "`, and separator occurrences do not overlap.
pub open spec fn split_expr_rec(t: Seq<char>, start: int, i: int) -> Seq<Seq<char>>
    decreases t.len() - i,
{
    if i < 0 || i >= t.len() {
        seq![t.subrange(start, t.len() as int)]
    } else if t[i] == '/' {
        seq![t.subrange(start, i)] + split_expr_rec(t, i + 1, i + 1)
    } else if or_at(t, i) {
        seq![t.subrange(start, i)] + split_expr_rec(t, i + 4, i + 4)
    } else {
        split_expr_rec(t, start, i + 1)
    }
}

/// What parsing a single expression piece yields: pieces hold no
/// separator, so parsing them never recurses.  A trimmed empty piece is an
/// absent license; a known identifier maps through the fixed table; any
/// other text is kept verbatim.
pub open spec fn parse_flat(s: Seq<char>) -> LicenseView {
    let t = crate::textops::trim_spec(s);
    if t.len() == 0 {
        LicenseView::Unspecified
    } else {
        match canon_of(t) {
            Option::Some(l) => l,
            Option::None => LicenseView::Custom(t),
        }
    }
}

/// Stable insertion of `x` into `s`: after every element that does not
/// compare greater.
pub open spec fn insert_lic(x: LicenseView, s: Seq<LicenseView>) -> Seq<LicenseView>
    decreases s.len(),
{
    if s.len() == 0 {
        seq![x]
    } else if lic_cmp(s[0], x) <= 0 {
        seq![s[0]] + insert_lic(x, s.drop_first())
    } else {
        seq![x] + s
    }
}

/// Insertion sort of license expressions under the fixed total order,
/// processing elements left to right.
pub open spec fn sort_lics(s: Seq<LicenseView>) -> Seq<LicenseView>
    decreases s.len(),
{
    if s.len() == 0 {
        s
    } else {
        insert_lic(s.last(), sort_lics(s.drop_last()))
    }
}

/// What parsing a license-expression string yields: after trimming, an
/// empty string is an absent license; a known identifier maps through the
/// fixed table; a string holding a separator becomes a `Multiple` of its
/// pieces, sorted under the fixed total order; anything else is kept
/// verbatim as `Custom`.
pub open spec fn parse_spec(s: Seq<char>) -> LicenseView {
    let t = crate::textops::trim_spec(s);
    if t.len() == 0 {
        LicenseView::Unspecified
    } else {
        match canon_of(t) {
            Option::Some(l) => l,
            Option::None => {
                if has_sep_from(t, 0) {
                    LicenseView::Multiple(
                        sort_lics(split_expr_rec(t, 0, 0).map_values(|p: Seq<char>| parse_flat(p))),
                    )
                } else {
                    LicenseView::Custom(t)
                }
            },
        }
    }
}

/// Looks a trimmed string up in the fixed identifier table.
fn canon_lookup(t: &str) -> (r: Option<License>)
    ensures
        (match (r, canon_of(t@)) {
            (Option::Some(l), Option::Some(lv)) => l@ == lv,
            (Option::None, Option::None) => true,
            _ => false,
        }),
{
    if crate::textops::str_eq(t, "Unlicense") {
        Option::Some(License::Unlicense)
    } else if crate::textops::str_eq(t, "0BSD") {
        Option::Some(License::BSD_0_Clause)
    } else if crate::textops::str_eq(t, "CC0-1.0") {
        Option::Some(License::CC0_1_0)
    } else if crate::textops::str_eq(t, "MIT") {
        Option::Some(License::MIT)
    } else if crate::textops::str_eq(t, "X11") {
        Option::Some(License::X11)
    } else if crate::textops::str_eq(t, "BSD-2-Clause") {
        Option::Some(License::BSD_2_Clause)
    } else if crate::textops::str_eq(t, "BSD-3-Clause") {
        Option::Some(License::BSD_3_Clause)
    } else if crate::textops::str_eq(t, "Apache-2.0") {
        Option::Some(License::Apache_2_0)
    } else if crate::textops::str_eq(t, "Apache-2.0 WITH LLVM-exception") {
        Option::Some(License::Apache_2_0_WITH_LLVM_exception)
    } else if crate::textops::str_eq(t, "LGPL-2.0-only") || crate::textops::str_eq(t, "LGPL-2.0") {
        Option::Some(License::LGPL_2_0)
    } else if crate::textops::str_eq(t, "LGPL-2.1-only") || crate::textops::str_eq(t, "LGPL-2.1") {
        Option::Some(License::LGPL_2_1)
    } else if crate::textops::str_eq(t, "LGPL-2.1-or-later") || crate::textops::str_eq(
        t,
        "LGPL-2.1+",
    ) {
        Option::Some(License::LGPL_2_1Plus)
    } else if crate::textops::str_eq(t, "LGPL-3.0-only") || crate::textops::str_eq(t, "LGPL-3.0") {
        Option::Some(License::LGPL_3_0)
    } else if crate::textops::str_eq(t, "LGPL-3.0-or-later") || crate::textops::str_eq(
        t,
        "LGPL-3.0+",
    ) {
        Option::Some(License::LGPL_3_0Plus)
    } else if crate::textops::str_eq(t, "MPL-1.1") {
        Option::Some(License::MPL_1_1)
    } else if crate::textops::str_eq(t, "MPL-2.0") {
        Option::Some(License::MPL_2_0)
    } else if crate::textops::str_eq(t, "GPL-2.0-only") || crate::textops::str_eq(t, "GPL-2.0") {
        Option::Some(License::GPL_2_0)
    } else if crate::textops::str_eq(t, "GPL-2.0-or-later") || crate::textops::str_eq(
        t,
        "GPL-2.0+",
    ) {
        Option::Some(License::GPL_2_0Plus)
    } else if crate::textops::str_eq(t, "GPL-3.0-only") || crate::textops::str_eq(t, "GPL-3.0") {
        Option::Some(License::GPL_3_0)
    } else if crate::textops::str_eq(t, "GPL-3.0-or-later") || crate::textops::str_eq(
        t,
        "GPL-3.0+",
    ) {
        Option::Some(License::GPL_3_0Plus)
    } else if crate::textops::str_eq(t, "AGPL-3.0-only") || crate::textops::str_eq(t, "AGPL-3.0") {
        Option::Some(License::AGPL_3_0)
    } else if crate::textops::str_eq(t, "AGPL-3.0-or-later") || crate::textops::str_eq(
        t,
        "AGPL-3.0+",
    ) {
        Option::Some(License::AGPL_3_0Plus)
    } else if crate::textops::str_eq(t, "Zlib") {
        Option::Some(License::Zlib)
    } else {
        Option::None
    }
}

/// Whether the trimmed string holds a `'/'` or `" OR "` separator.
fn has_sep_exec(t: &str) -> (r: bool)
    ensures
        r == has_sep_from(t@, 0),
{
    let len = t.unicode_len();
    let mut i: usize = 0;
    while i < len
        invariant
            0 <= i <= len,
            len == t@.len(),
            has_sep_from(t@, 0) == has_sep_from(t@, i as int),
        decreases len - i,
    {
        let c = t.get_char(i);
        if c == '/' {
            return true;
        }
        if len - i > 3 {
            if c == ' ' && t.get_char(i + 1) == 'O' && t.get_char(i + 2) == 'R' && t.get_char(i + 3)
                == ' ' {
                return true;
            }
        }
        i = i + 1;
    }
    false
}

/// Splits the trimmed string at every separator, left to right.
fn split_expr_exec(t: &str) -> (r: Vec<String>)
    ensures
        r.deep_view() == split_expr_rec(t@, 0, 0),
{
    let len = t.unicode_len();
    let mut pieces: Vec<String> = Vec::new();
    let mut start: usize = 0;
    let mut i: usize = 0;
    while i < len
        invariant
            0 <= start <= i <= len,
            len == t@.len(),
            split_expr_rec(t@, 0, 0) =~= pieces.deep_view() + split_expr_rec(
                t@,
                start as int,
                i as int,
            ),
        decreases len - i,
    {
        let c = t.get_char(i);
        if c == '/' {
            let ghost old_pieces = pieces.deep_view();
            pieces.push(t.substring_char(start, i).to_owned());
            proof {
                assert(pieces.deep_view() =~= old_pieces.push(t@.subrange(start as int, i as int)));
            }
            i = i + 1;
            start = i;
        } else if len - i > 3 && c == ' ' && t.get_char(i + 1) == 'O' && t.get_char(i + 2) == 'R'
            && t.get_char(i + 3) == ' ' {
            let ghost old_pieces = pieces.deep_view();
            pieces.push(t.substring_char(start, i).to_owned());
            proof {
                assert(pieces.deep_view() =~= old_pieces.push(t@.subrange(start as int, i as int)));
            }
            i = i + 4;
            start = i;
        } else {
            i = i + 1;
        }
    }
    let ghost old_pieces = pieces.deep_view();
    pieces.push(t.substring_char(start, len).to_owned());
    proof {
        assert(pieces.deep_view() =~= old_pieces.push(t@.subrange(start as int, len as int)));
    }
    pieces
}

/// `insert_lic` places its element at the first position whose entry
/// compares greater.
proof fn lemma_insert_at(x: LicenseView, s: Seq<LicenseView>, j: int)
    requires
        0 <= j <= s.len(),
        forall|i: int| 0 <= i < j ==> lic_cmp(#[trigger] s[i], x) <= 0,
        j < s.len() ==> lic_cmp(s[j], x) > 0,
    ensures
        insert_lic(x, s) =~= s.subrange(0, j) + seq![x] + s.skip(j),
    decreases s.len(),
{
    if j == 0 {
        if s.len() > 0 {
            assert(insert_lic(x, s) =~= seq![x] + s);
        }
    } else {
        assert(lic_cmp(s[0], x) <= 0);
        lemma_insert_at(x, s.drop_first(), j - 1);
        assert(insert_lic(x, s) == seq![s[0]] + insert_lic(x, s.drop_first()));
        assert(s.drop_first().subrange(0, j - 1) =~= s.subrange(1, j));
        assert(s.drop_first().skip(j - 1) =~= s.skip(j));
        assert(seq![s[0]] + (s.subrange(1, j) + seq![x] + s.skip(j)) =~= s.subrange(0, j) + seq![x]
            + s.skip(j));
    }
}

/// Sorts license values under the fixed total order by stable insertion.
fn sort_licenses(v: Vec<License>) -> (r: Vec<License>)
    ensures
        member_views(r@) == sort_lics(member_views(v@)),
{
    broadcast use lemma_member_views;

    let ghost orig = member_views(v@);
    let mut v = v;
    let mut out: Vec<License> = Vec::new();
    let ghost k: int = 0;
    proof {
        assert(orig.take(0) =~= Seq::<LicenseView>::empty());
        assert(orig.skip(0) =~= orig);
        assert(member_views(v@) =~= orig.skip(0));
    }
    while v.len() > 0
        invariant
            0 <= k <= orig.len(),
            member_views(v@) =~= orig.skip(k),
            v@.len() == orig.len() - k,
            member_views(out@) == sort_lics(orig.take(k)),
        decreases v.len(),
    {
        let ghost prev = v@;
        let x = v.remove(0);
        let ghost xv = license_view(x);
        proof {
            lemma_member_views(prev);
            lemma_member_views(v@);
            assert(member_views(prev) =~= orig.skip(k));
            assert(xv == member_views(prev)[0]);
            assert(xv == orig[k]);
            assert(v@ =~= prev.drop_first());
            assert(member_views(v@) =~= member_views(prev).drop_first());
            assert(member_views(v@) =~= orig.skip(k + 1)) by {
                assert(orig.skip(k).drop_first() =~= orig.skip(k + 1));
            }
        }
        let mut j: usize = 0;
        while j < out.len() && out[j].cmp_with(&x) <= 0
            invariant
                0 <= j <= out.len(),
                forall|i: int| 0 <= i < j ==> lic_cmp(#[trigger] member_views(out@)[i], xv) <= 0,
                xv == license_view(x),
            decreases out.len() - j,
        {
            proof {
                lemma_member_views(out@);
                assert(member_views(out@)[j as int] == license_view(out@[j as int]));
            }
            j = j + 1;
        }
        proof {
            lemma_member_views(out@);
            if j < out.len() {
                assert(member_views(out@)[j as int] == license_view(out@[j as int]));
                assert(lic_cmp(member_views(out@)[j as int], xv) > 0);
            }
            lemma_insert_at(xv, member_views(out@), j as int);
        }
        let ghost before = member_views(out@);
        out.insert(j, x);
        proof {
            lemma_member_views(out@);
            assert(member_views(out@) =~= before.subrange(0, j as int) + seq![xv] + before.skip(
                j as int,
            ));
            assert(member_views(out@) == insert_lic(xv, before));
            assert(orig.take(k + 1).drop_last() =~= orig.take(k));
            assert(orig.take(k + 1).last() == orig[k]);
            assert(sort_lics(orig.take(k + 1)) == insert_lic(xv, sort_lics(orig.take(k))));
            k = k + 1;
        }
    }
    proof {
        assert(orig.take(k) =~= orig);
    }
    out
}

impl License {
    /// Parses a license-expression string: exact identifier match after
    /// trimming, else a `'/'`- or `" OR "`-separated disjunction whose
    /// pieces are parsed and sorted into a `Multiple`, else the text kept
    /// verbatim as `Custom`; an empty string is `Unspecified`.
    pub fn parse(s: &str) -> (r: License)
        ensures
            r@ == parse_spec(s@),
    {
        broadcast use lemma_member_views;

        let t = crate::textops::trim(s);
        if t.unicode_len() == 0 {
            return License::Unspecified;
        }
        if let Option::Some(l) = canon_lookup(t) {
            return l;
        }
        if has_sep_exec(t) {
            let pieces = split_expr_exec(t);
            let ghost target = split_expr_rec(t@, 0, 0).map_values(|p: Seq<char>| parse_flat(p));
            let mut lics: Vec<License> = Vec::new();
            let mut idx: usize = 0;
            proof {
                assert(member_views(lics@) =~= target.take(0));
            }
            while idx < pieces.len()
                invariant
                    0 <= idx <= pieces.len(),
                    pieces.deep_view() == split_expr_rec(t@, 0, 0),
                    target == split_expr_rec(t@, 0, 0).map_values(|p: Seq<char>| parse_flat(p)),
                    member_views(lics@) =~= target.take(idx as int),
                decreases pieces.len() - idx,
            {
                let ghost before = member_views(lics@);
                let piece = parse_piece(pieces[idx].as_str());
                proof {
                    assert(pieces.deep_view()[idx as int] == pieces@[idx as int]@);
                }
                let ghost prevs = lics@;
                lics.push(piece);
                proof {
                    assert(lics@.drop_last() =~= prevs);
                    assert(lics@.last() == piece);
                    assert(member_views(lics@) =~= before.push(license_view(piece)));
                    assert(member_views(lics@) =~= target.take(idx as int + 1));
                }
                idx = idx + 1;
            }
            proof {
                assert(target.take(pieces.deep_view().len() as int) =~= target);
            }
            let sorted = sort_licenses(lics);
            return License::Multiple(sorted);
        }
        License::Custom(t.to_owned())
    }
}

/// The fixed allow table of the compatibility lattice: whether a consumer
/// under license `a` may include a dependency under license `b`.
/// Permissive licenses are includable by everyone; each copyleft tier may
/// include itself and what weaker tiers may include; an unspecified
/// consumer may only include the most permissive tier; the zlib and
/// LLVM-exception identifiers stand outside the three tiers and admit
/// only MIT.  Unlisted pairs are disallowed, not unknown.
pub open spec fn allows(a: LicenseView, b: LicenseView) -> bool {
    match a {
        LicenseView::Unspecified => match b {
            LicenseView::Unlicense
            | LicenseView::MIT
            | LicenseView::X11
            | LicenseView::BSD_2_Clause
            | LicenseView::BSD_3_Clause => true,
            _ => false,
        },
        LicenseView::Unlicense
        | LicenseView::BSD_0_Clause
        | LicenseView::CC0_1_0
        | LicenseView::MIT
        | LicenseView::X11 => match b {
            LicenseView::Unlicense
            | LicenseView::BSD_0_Clause
            | LicenseView::CC0_1_0
            | LicenseView::MIT
            | LicenseView::X11 => true,
            _ => false,
        },
        LicenseView::BSD_2_Clause | LicenseView::BSD_3_Clause => match b {
            LicenseView::Unlicense
            | LicenseView::BSD_0_Clause
            | LicenseView::CC0_1_0
            | LicenseView::MIT
            | LicenseView::X11
            | LicenseView::BSD_2_Clause
            | LicenseView::BSD_3_Clause => true,
            _ => false,
        },
        LicenseView::Apache_2_0 => match b {
            LicenseView::Unlicense
            | LicenseView::BSD_0_Clause
            | LicenseView::CC0_1_0
            | LicenseView::MIT
            | LicenseView::X11
            | LicenseView::BSD_2_Clause
            | LicenseView::BSD_3_Clause
            | LicenseView::Apache_2_0 => true,
            _ => false,
        },
        LicenseView::MPL_1_1 => match b {
            LicenseView::Unlicense
            | LicenseView::BSD_0_Clause
            | LicenseView::CC0_1_0
            | LicenseView::MIT
            | LicenseView::X11
            | LicenseView::BSD_2_Clause
            | LicenseView::BSD_3_Clause
            | LicenseView::MPL_1_1 => true,
            _ => false,
        },
        LicenseView::MPL_2_0 => match b {
            LicenseView::Unlicense
            | LicenseView::BSD_0_Clause
            | LicenseView::CC0_1_0
            | LicenseView::MIT
            | LicenseView::X11
            | LicenseView::BSD_2_Clause
            | LicenseView::BSD_3_Clause
            | LicenseView::Apache_2_0
            | LicenseView::MPL_2_0 => true,
            _ => false,
        },
        LicenseView::LGPL_2_1Plus => match b {
            LicenseView::Unlicense
            | LicenseView::BSD_0_Clause
            | LicenseView::CC0_1_0
            | LicenseView::MIT
            | LicenseView::X11
            | LicenseView::BSD_2_Clause
            | LicenseView::BSD_3_Clause
            | LicenseView::MPL_2_0
            | LicenseView::LGPL_2_1Plus => true,
            _ => false,
        },
        LicenseView::LGPL_2_1 => match b {
            LicenseView::Unlicense
            | LicenseView::BSD_0_Clause
            | LicenseView::CC0_1_0
            | LicenseView::MIT
            | LicenseView::X11
            | LicenseView::BSD_2_Clause
            | LicenseView::BSD_3_Clause
            | LicenseView::MPL_2_0
            | LicenseView::LGPL_2_1Plus
            | LicenseView::LGPL_2_1 => true,
            _ => false,
        },
        LicenseView::LGPL_3_0Plus => match b {
            LicenseView::Unlicense
            | LicenseView::BSD_0_Clause
            | LicenseView::CC0_1_0
            | LicenseView::MIT
            | LicenseView::X11
            | LicenseView::BSD_2_Clause
            | LicenseView::BSD_3_Clause
            | LicenseView::MPL_2_0
            | LicenseView::Apache_2_0
            | LicenseView::LGPL_2_1Plus
            | LicenseView::LGPL_3_0Plus => true,
            _ => false,
        },
        LicenseView::LGPL_3_0 => match b {
            LicenseView::Unlicense
            | LicenseView::BSD_0_Clause
            | LicenseView::CC0_1_0
            | LicenseView::MIT
            | LicenseView::X11
            | LicenseView::BSD_2_Clause
            | LicenseView::BSD_3_Clause
            | LicenseView::MPL_2_0
            | LicenseView::Apache_2_0
            | LicenseView::LGPL_2_1Plus
            | LicenseView::LGPL_3_0Plus
            | LicenseView::LGPL_3_0 => true,
            _ => false,
        },
        LicenseView::GPL_2_0Plus => match b {
            LicenseView::Unlicense
            | LicenseView::BSD_0_Clause
            | LicenseView::CC0_1_0
            | LicenseView::MIT
            | LicenseView::X11
            | LicenseView::BSD_2_Clause
            | LicenseView::BSD_3_Clause
            | LicenseView::MPL_2_0
            | LicenseView::LGPL_2_1Plus
            | LicenseView::LGPL_2_1
            | LicenseView::GPL_2_0Plus => true,
            _ => false,
        },
        LicenseView::GPL_2_0 => match b {
            LicenseView::Unlicense
            | LicenseView::BSD_0_Clause
            | LicenseView::CC0_1_0
            | LicenseView::MIT
            | LicenseView::X11
            | LicenseView::BSD_2_Clause
            | LicenseView::BSD_3_Clause
            | LicenseView::MPL_2_0
            | LicenseView::LGPL_2_1Plus
            | LicenseView::LGPL_2_1
            | LicenseView::GPL_2_0Plus
            | LicenseView::GPL_2_0 => true,
            _ => false,
        },
        LicenseView::GPL_3_0Plus => match b {
            LicenseView::Unlicense
            | LicenseView::BSD_0_Clause
            | LicenseView::CC0_1_0
            | LicenseView::MIT
            | LicenseView::X11
            | LicenseView::BSD_2_Clause
            | LicenseView::BSD_3_Clause
            | LicenseView::MPL_2_0
            | LicenseView::Apache_2_0
            | LicenseView::LGPL_2_1Plus
            | LicenseView::LGPL_2_1
            | LicenseView::GPL_2_0Plus
            | LicenseView::GPL_3_0Plus => true,
            _ => false,
        },
        LicenseView::GPL_3_0 => match b {
            LicenseView::Unlicense
            | LicenseView::BSD_0_Clause
            | LicenseView::CC0_1_0
            | LicenseView::MIT
            | LicenseView::X11
            | LicenseView::BSD_2_Clause
            | LicenseView::BSD_3_Clause
            | LicenseView::MPL_2_0
            | LicenseView::Apache_2_0
            | LicenseView::LGPL_2_1Plus
            | LicenseView::LGPL_2_1
            | LicenseView::GPL_2_0Plus
            | LicenseView::GPL_3_0Plus
            | LicenseView::GPL_3_0 => true,
            _ => false,
        },
        LicenseView::AGPL_3_0Plus => match b {
            LicenseView::Unlicense
            | LicenseView::BSD_0_Clause
            | LicenseView::CC0_1_0
            | LicenseView::MIT
            | LicenseView::X11
            | LicenseView::BSD_2_Clause
            | LicenseView::BSD_3_Clause
            | LicenseView::MPL_2_0
            | LicenseView::Apache_2_0
            | LicenseView::LGPL_2_1Plus
            | LicenseView::LGPL_2_1
            | LicenseView::GPL_2_0Plus
            | LicenseView::GPL_3_0Plus
            | LicenseView::GPL_3_0
            | LicenseView::AGPL_3_0Plus => true,
            _ => false,
        },
        LicenseView::AGPL_3_0 => match b {
            LicenseView::Unlicense
            | LicenseView::BSD_0_Clause
            | LicenseView::CC0_1_0
            | LicenseView::MIT
            | LicenseView::X11
            | LicenseView::BSD_2_Clause
            | LicenseView::BSD_3_Clause
            | LicenseView::MPL_2_0
            | LicenseView::Apache_2_0
            | LicenseView::LGPL_2_1Plus
            | LicenseView::LGPL_2_1
            | LicenseView::GPL_2_0Plus
            | LicenseView::GPL_3_0Plus
            | LicenseView::GPL_3_0
            | LicenseView::AGPL_3_0Plus
            | LicenseView::AGPL_3_0 => true,
            _ => false,
        },
        LicenseView::Zlib | LicenseView::Apache_2_0_WITH_LLVM_exception => match b {
            LicenseView::MIT => true,
            _ => false,
        },
        _ => false,
    }
}

/// The three-valued compatibility oracle: whether a consumer under `a`
/// may include a dependency under `b`.  The rules apply in order: an
/// unspecified dependency is refused; free-text and file licenses are
/// unknown; a `Multiple` consumer must admit the dependency under every
/// member; a `Multiple` dependency must be admitted under some member; the
/// under-specified LGPL-2.0 identifier is conservatively unknown; all
/// remaining pairs consult the fixed allow table.
pub open spec fn can_include_spec(a: LicenseView, b: LicenseView) -> Compat
    decreases a, b,
{
    match (a, b) {
        (_, LicenseView::Unspecified) => Compat::No,
        (LicenseView::Custom(_), _)
        | (_, LicenseView::Custom(_))
        | (LicenseView::File(_), _)
        | (_, LicenseView::File(_)) => Compat::Unknown,
        (LicenseView::Multiple(ls), _) => {
            if exists|i: int|
                0 <= i < ls.len() && can_include_spec(#[trigger] ls[i], b) == Compat::No {
                Compat::No
            } else if exists|i: int|
                0 <= i < ls.len() && can_include_spec(#[trigger] ls[i], b) == Compat::Unknown {
                Compat::Unknown
            } else {
                Compat::Yes
            }
        },
        (_, LicenseView::Multiple(ls)) => {
            if exists|i: int|
                0 <= i < ls.len() && can_include_spec(a, #[trigger] ls[i]) == Compat::Yes {
                Compat::Yes
            } else if exists|i: int|
                0 <= i < ls.len() && can_include_spec(a, #[trigger] ls[i]) == Compat::Unknown {
                Compat::Unknown
            } else {
                Compat::No
            }
        },
        (LicenseView::LGPL_2_0, _) | (_, LicenseView::LGPL_2_0) => Compat::Unknown,
        _ => if allows(a, b) {
            Compat::Yes
        } else {
            Compat::No
        },
    }
}

impl License {
    /// Whether the fixed allow table admits `other` under `self`.
    fn lattice_allows(&self, other: &License) -> (r: bool)
        ensures
            r == allows(self@, other@),
    {
        match self {
            License::Unspecified => matches!(
                other,
                License::Unlicense | License::MIT | License::X11 | License::BSD_2_Clause
                    | License::BSD_3_Clause
            ),
            License::Unlicense | License::BSD_0_Clause | License::CC0_1_0 | License::MIT
                | License::X11 => matches!(
                other,
                License::Unlicense | License::BSD_0_Clause | License::CC0_1_0 | License::MIT
                    | License::X11
            ),
            License::BSD_2_Clause | License::BSD_3_Clause => matches!(
                other,
                License::Unlicense | License::BSD_0_Clause | License::CC0_1_0 | License::MIT
                    | License::X11 | License::BSD_2_Clause | License::BSD_3_Clause
            ),
            License::Apache_2_0 => matches!(
                other,
                License::Unlicense | License::BSD_0_Clause | License::CC0_1_0 | License::MIT
                    | License::X11 | License::BSD_2_Clause | License::BSD_3_Clause
                    | License::Apache_2_0
            ),
            License::MPL_1_1 => matches!(
                other,
                License::Unlicense | License::BSD_0_Clause | License::CC0_1_0 | License::MIT
                    | License::X11 | License::BSD_2_Clause | License::BSD_3_Clause
                    | License::MPL_1_1
            ),
            License::MPL_2_0 => matches!(
                other,
                License::Unlicense | License::BSD_0_Clause | License::CC0_1_0 | License::MIT
                    | License::X11 | License::BSD_2_Clause | License::BSD_3_Clause
                    | License::Apache_2_0 | License::MPL_2_0
            ),
            License::LGPL_2_1Plus => matches!(
                other,
                License::Unlicense | License::BSD_0_Clause | License::CC0_1_0 | License::MIT
                    | License::X11 | License::BSD_2_Clause | License::BSD_3_Clause
                    | License::MPL_2_0 | License::LGPL_2_1Plus
            ),
            License::LGPL_2_1 => matches!(
                other,
                License::Unlicense | License::BSD_0_Clause | License::CC0_1_0 | License::MIT
                    | License::X11 | License::BSD_2_Clause | License::BSD_3_Clause
                    | License::MPL_2_0 | License::LGPL_2_1Plus | License::LGPL_2_1
            ),
            License::LGPL_3_0Plus => matches!(
                other,
                License::Unlicense | License::BSD_0_Clause | License::CC0_1_0 | License::MIT
                    | License::X11 | License::BSD_2_Clause | License::BSD_3_Clause
                    | License::MPL_2_0 | License::Apache_2_0 | License::LGPL_2_1Plus
                    | License::LGPL_3_0Plus
            ),
            License::LGPL_3_0 => matches!(
                other,
                License::Unlicense | License::BSD_0_Clause | License::CC0_1_0 | License::MIT
                    | License::X11 | License::BSD_2_Clause | License::BSD_3_Clause
                    | License::MPL_2_0 | License::Apache_2_0 | License::LGPL_2_1Plus
                    | License::LGPL_3_0Plus | License::LGPL_3_0
            ),
            License::GPL_2_0Plus => matches!(
                other,
                License::Unlicense | License::BSD_0_Clause | License::CC0_1_0 | License::MIT
                    | License::X11 | License::BSD_2_Clause | License::BSD_3_Clause
                    | License::MPL_2_0 | License::LGPL_2_1Plus | License::LGPL_2_1
                    | License::GPL_2_0Plus
            ),
            License::GPL_2_0 => matches!(
                other,
                License::Unlicense | License::BSD_0_Clause | License::CC0_1_0 | License::MIT
                    | License::X11 | License::BSD_2_Clause | License::BSD_3_Clause
                    | License::MPL_2_0 | License::LGPL_2_1Plus | License::LGPL_2_1
                    | License::GPL_2_0Plus | License::GPL_2_0
            ),
            License::GPL_3_0Plus => matches!(
                other,
                License::Unlicense | License::BSD_0_Clause | License::CC0_1_0 | License::MIT
                    | License::X11 | License::BSD_2_Clause | License::BSD_3_Clause
                    | License::MPL_2_0 | License::Apache_2_0 | License::LGPL_2_1Plus
                    | License::LGPL_2_1 | License::GPL_2_0Plus | License::GPL_3_0Plus
            ),
            License::GPL_3_0 => matches!(
                other,
                License::Unlicense | License::BSD_0_Clause | License::CC0_1_0 | License::MIT
                    | License::X11 | License::BSD_2_Clause | License::BSD_3_Clause
                    | License::MPL_2_0 | License::Apache_2_0 | License::LGPL_2_1Plus
                    | License::LGPL_2_1 | License::GPL_2_0Plus | License::GPL_3_0Plus
                    | License::GPL_3_0
            ),
            License::AGPL_3_0Plus => matches!(
                other,
                License::Unlicense | License::BSD_0_Clause | License::CC0_1_0 | License::MIT
                    | License::X11 | License::BSD_2_Clause | License::BSD_3_Clause
                    | License::MPL_2_0 | License::Apache_2_0 | License::LGPL_2_1Plus
                    | License::LGPL_2_1 | License::GPL_2_0Plus | License::GPL_3_0Plus
                    | License::GPL_3_0 | License::AGPL_3_0Plus
            ),
            License::AGPL_3_0 => matches!(
                other,
                License::Unlicense | License::BSD_0_Clause | License::CC0_1_0 | License::MIT
                    | License::X11 | License::BSD_2_Clause | License::BSD_3_Clause
                    | License::MPL_2_0 | License::Apache_2_0 | License::LGPL_2_1Plus
                    | License::LGPL_2_1 | License::GPL_2_0Plus | License::GPL_3_0Plus
                    | License::GPL_3_0 | License::AGPL_3_0Plus | License::AGPL_3_0
            ),
            License::Zlib | License::Apache_2_0_WITH_LLVM_exception => matches!(
                other,
                License::MIT
            ),
            _ => false,
        }
    }

    /// The three-valued compatibility oracle: whether a consumer under
    /// `self` may include a dependency under `other`.
    pub fn can_include(&self, other: &License) -> (r: Compat)
        ensures
            r == can_include_spec(self@, other@),
        decreases *self, *other,
    {
        broadcast use lemma_member_views;

        if let License::Unspecified = other {
            return Compat::No;
        }
        if let License::Custom(_) = self {
            return Compat::Unknown;
        }
        if let License::Custom(_) = other {
            return Compat::Unknown;
        }
        if let License::File(_) = self {
            return Compat::Unknown;
        }
        if let License::File(_) = other {
            return Compat::Unknown;
        }
        if let License::Multiple(ls) = self {
            let ghost vs = member_views(ls@);
            let mut saw_unknown = false;
            let mut i: usize = 0;
            #[verifier::loop_isolation(false)]
            while i < ls.len()
                invariant
                    0 <= i <= ls.len(),
                    forall|q: int|
                        0 <= q < i ==> can_include_spec(#[trigger] vs[q], other@) != Compat::No,
                    saw_unknown == exists|q: int|
                        0 <= q < i && can_include_spec(#[trigger] vs[q], other@)
                            == Compat::Unknown,
                decreases ls.len() - i,
            {
                proof {
                    assert(vs[i as int] == license_view(ls@[i as int]));
                    assert(decreases_to!(*self => ls@[i as int]));
                }
                let c = (&ls[i]).can_include(other);
                if c == Compat::No {
                    proof {
                        assert(can_include_spec(vs[i as int], other@) == Compat::No);
                    }
                    return Compat::No;
                }
                if c == Compat::Unknown {
                    saw_unknown = true;
                    proof {
                        assert(can_include_spec(vs[i as int], other@) == Compat::Unknown);
                    }
                }
                i = i + 1;
            }
            if saw_unknown {
                return Compat::Unknown;
            } else {
                return Compat::Yes;
            }
        }
        if let License::Multiple(ls) = other {
            let ghost vs = member_views(ls@);
            let mut saw_unknown = false;
            let mut i: usize = 0;
            #[verifier::loop_isolation(false)]
            while i < ls.len()
                invariant
                    0 <= i <= ls.len(),
                    forall|q: int|
                        0 <= q < i ==> can_include_spec(self@, #[trigger] vs[q]) != Compat::Yes,
                    saw_unknown == exists|q: int|
                        0 <= q < i && can_include_spec(self@, #[trigger] vs[q])
                            == Compat::Unknown,
                decreases ls.len() - i,
            {
                proof {
                    assert(vs[i as int] == license_view(ls@[i as int]));
                    assert(decreases_to!(*other => ls@[i as int]));
                }
                let c = self.can_include(&ls[i]);
                if c == Compat::Yes {
                    proof {
                        assert(can_include_spec(self@, vs[i as int]) == Compat::Yes);
                    }
                    return Compat::Yes;
                }
                if c == Compat::Unknown {
                    saw_unknown = true;
                    proof {
                        assert(can_include_spec(self@, vs[i as int]) == Compat::Unknown);
                    }
                }
                i = i + 1;
            }
            if saw_unknown {
                return Compat::Unknown;
            } else {
                return Compat::No;
            }
        }
        if let License::LGPL_2_0 = self {
            return Compat::Unknown;
        }
        if let License::LGPL_2_0 = other {
            return Compat::Unknown;
        }
        if self.lattice_allows(other) {
            Compat::Yes
        } else {
            Compat::No
        }
    }
}

/// Reference body for the Unlicense.
pub const TEMPLATE_UNLICENSE: &'static str =
    "This is free and unencumbered software released into the public domain. Anyone is free to copy, modify, publish, use, compile, sell, or distribute this software, either in source code form or as a compiled binary, for any purpose, commercial or non-commercial, and by any means. In jurisdictions that recognize copyright laws, the author or authors of this software dedicate any and all copyright interest in the software to the public domain.";

/// Reference body for the MIT license.
pub const TEMPLATE_MIT: &'static str =
    "Permission is hereby granted, free of charge, to any person obtaining a copy of this software and associated documentation files, to deal in the software without restriction, including without limitation the rights to use, copy, modify, merge, publish, distribute, sublicense, and/or sell copies, subject to the following conditions: the above copyright notice and this permission notice shall be included in all copies or substantial portions of the software. The software is provided as is, without warranty of any kind.";

/// Reference body for the Apache License, Version 2.0.
pub const TEMPLATE_APACHE_2_0: &'static str =
    "Apache License, Version 2.0. Subject to the terms and conditions of this License, each Contributor hereby grants to You a perpetual, worldwide, non-exclusive, no-charge, royalty-free, irrevocable copyright license to reproduce, prepare Derivative Works of, publicly display, publicly perform, sublicense, and distribute the Work and such Derivative Works in Source or Object form. You must give any other recipients of the Work or Derivative Works a copy of this License, and cause any modified files to carry prominent notices stating that You changed the files.";

/// Reference body for the Apache License, Version 2.0 with the LLVM
/// exception.
pub const TEMPLATE_APACHE_2_0_LLVM: &'static str =
    "Apache License, Version 2.0, with LLVM Exceptions. Subject to the terms and conditions of this License, each Contributor hereby grants to You a perpetual, worldwide, non-exclusive, no-charge, royalty-free, irrevocable copyright license to reproduce, prepare Derivative Works of, publicly display, publicly perform, sublicense, and distribute the Work. As an exception, if, as a result of your compiling your source code, portions of this Software are embedded into an Object form of such source code, you may redistribute such embedded portions in such Object form without complying with the conditions of Sections 4(a), 4(b) and 4(d) of the License.";

/// Reference body for the BSD Zero Clause license.
pub const TEMPLATE_0BSD: &'static str =
    "Permission to use, copy, modify, and/or distribute this software for any purpose with or without fee is hereby granted. The software is provided as is and the author disclaims all warranties with regard to this software including all implied warranties of merchantability and fitness.";

/// Reference body for the BSD 3-Clause license.
pub const TEMPLATE_BSD_3_CLAUSE: &'static str =
    "Redistribution and use in source and binary forms, with or without modification, are permitted provided that the following conditions are met: redistributions of source code must retain the above copyright notice, this list of conditions and the following disclaimer; redistributions in binary form must reproduce the above copyright notice in the documentation provided with the distribution; neither the name of the copyright holder nor the names of its contributors may be used to endorse or promote products derived from this software without specific prior written permission.";

/// Reference body for the GNU GPL 2.0 or later.
pub const TEMPLATE_GPL_2_0_PLUS: &'static str =
    "GNU General Public License, version 2. This program is free software; you can redistribute it and/or modify it under the terms of the GNU General Public License as published by the Free Software Foundation; either version 2 of the License, or (at your option) any later version. You may copy and distribute verbatim copies of the Program's source code as you receive it, provided that you conspicuously and appropriately publish on each copy an appropriate copyright notice and keep intact all the notices that refer to this License.";

/// Reference body for the GNU GPL 3.0 or later.
pub const TEMPLATE_GPL_3_0_PLUS: &'static str =
    "GNU General Public License, version 3. This program is free software: you can redistribute it and/or modify it under the terms of the GNU General Public License as published by the Free Software Foundation, either version 3 of the License, or (at your option) any later version. All rights granted under this License are granted for the term of copyright on the Program, and are irrevocable provided the stated conditions are met. You may convey covered works to others for the sole purpose of having them make modifications exclusively for you.";

/// Reference body for the GNU LGPL 2.1 or later.
pub const TEMPLATE_LGPL_2_1_PLUS: &'static str =
    "GNU Lesser General Public License, version 2.1. This library is free software; you can redistribute it and/or modify it under the terms of the GNU Lesser General Public License as published by the Free Software Foundation; either version 2.1 of the License, or (at your option) any later version. You may copy and distribute verbatim copies of the Library's complete source code as you receive it, provided that you conspicuously and appropriately publish on each copy an appropriate copyright notice.";

/// Reference body for the GNU LGPL 3.0 or later.
pub const TEMPLATE_LGPL_3_0_PLUS: &'static str =
    "GNU Lesser General Public License, version 3. This version of the GNU Lesser General Public License incorporates the terms and conditions of version 3 of the GNU General Public License, supplemented by the additional permissions listed below. You may convey a covered work under sections 3 and 4 of this License without being bound by section 3 of the GNU GPL.";

/// Reference body for the zlib license.
pub const TEMPLATE_ZLIB: &'static str =
    "This software is provided as-is, without any express or implied warranty. In no event will the authors be held liable for any damages arising from the use of this software. Permission is granted to anyone to use this software for any purpose, including commercial applications, and to alter it and redistribute it freely, subject to the following restrictions: the origin of this software must not be misrepresented; altered source versions must be plainly marked as such; and this notice may not be removed or altered from any source distribution.";

/// The canonical template body of an identifier, where one exists.
pub open spec fn template_spec(l: LicenseView) -> Option<Seq<char>> {
    match l {
        LicenseView::Unlicense => Option::Some(TEMPLATE_UNLICENSE@),
        LicenseView::MIT => Option::Some(TEMPLATE_MIT@),
        LicenseView::Apache_2_0 => Option::Some(TEMPLATE_APACHE_2_0@),
        LicenseView::Apache_2_0_WITH_LLVM_exception => Option::Some(TEMPLATE_APACHE_2_0_LLVM@),
        LicenseView::BSD_0_Clause => Option::Some(TEMPLATE_0BSD@),
        LicenseView::BSD_3_Clause => Option::Some(TEMPLATE_BSD_3_CLAUSE@),
        LicenseView::GPL_2_0Plus => Option::Some(TEMPLATE_GPL_2_0_PLUS@),
        LicenseView::GPL_3_0Plus => Option::Some(TEMPLATE_GPL_3_0_PLUS@),
        LicenseView::LGPL_2_1Plus => Option::Some(TEMPLATE_LGPL_2_1_PLUS@),
        LicenseView::LGPL_3_0Plus => Option::Some(TEMPLATE_LGPL_3_0_PLUS@),
        LicenseView::Zlib => Option::Some(TEMPLATE_ZLIB@),
        _ => Option::None,
    }
}

impl License {
    /// The canonical plain-text reference body of this identifier, or
    /// `None` where no template is available.  The embedded bodies are
    /// condensed reference texts, not the full license wording.  Callers
    /// split a `Multiple` into its members first.
    pub fn template(&self) -> (r: Option<&'static str>)
        requires
            !(self@ is Multiple),
        ensures
            (match (r, template_spec(self@)) {
                (Option::Some(t), Option::Some(tv)) => t@ == tv,
                (Option::None, Option::None) => true,
                _ => false,
            }),
    {
        match self {
            License::Unlicense => Option::Some(TEMPLATE_UNLICENSE),
            License::MIT => Option::Some(TEMPLATE_MIT),
            License::Apache_2_0 => Option::Some(TEMPLATE_APACHE_2_0),
            License::Apache_2_0_WITH_LLVM_exception => Option::Some(TEMPLATE_APACHE_2_0_LLVM),
            License::BSD_0_Clause => Option::Some(TEMPLATE_0BSD),
            License::BSD_3_Clause => Option::Some(TEMPLATE_BSD_3_CLAUSE),
            License::GPL_2_0Plus => Option::Some(TEMPLATE_GPL_2_0_PLUS),
            License::GPL_3_0Plus => Option::Some(TEMPLATE_GPL_3_0_PLUS),
            License::LGPL_2_1Plus => Option::Some(TEMPLATE_LGPL_2_1_PLUS),
            License::LGPL_3_0Plus => Option::Some(TEMPLATE_LGPL_3_0_PLUS),
            License::Zlib => Option::Some(TEMPLATE_ZLIB),
            _ => Option::None,
        }
    }
}

/// The slug of an identifier's canonical string, lowercased: the base
/// synonym its license files are recognized by.
pub open spec fn base_synonym(l: LicenseView) -> Seq<char> {
    crate::textops::lower_of(crate::textops::slug_of(display_spec(l)))
}

/// The slugified synonyms of an identifier, longest first, so that a more
/// specific synonym is preferred over a generic substring match.  Ties
/// keep the base synonym first.
pub open spec fn synonyms_spec(l: LicenseView) -> Seq<Seq<char>> {
    if l is Apache_2_0 {
        let d = base_synonym(l);
        if d.len() >= 8 {
            seq![d, "apache-2"@, "apache2"@, "apache"@]
        } else if d.len() >= 7 {
            seq!["apache-2"@, d, "apache2"@, "apache"@]
        } else if d.len() >= 6 {
            seq!["apache-2"@, "apache2"@, d, "apache"@]
        } else {
            seq!["apache-2"@, "apache2"@, "apache"@, d]
        }
    } else {
        seq![base_synonym(l)]
    }
}

impl License {
    /// The slugified synonyms of this identifier, longest first.
    pub fn synonyms(&self) -> (r: Vec<String>)
        requires
            wf_view(self@),
        ensures
            r.deep_view() == synonyms_spec(self@),
    {
        let shown = self.display();
        let slugged = crate::textops::slugify(shown.as_str());
        let d = crate::textops::to_lower(slugged.as_str());
        if let License::Apache_2_0 = self {
            let dlen = d.unicode_len();
            let mut out: Vec<String> = Vec::new();
            if dlen >= 8 {
                out.push(d);
                out.push("apache-2".to_owned());
                out.push("apache2".to_owned());
                out.push("apache".to_owned());
            } else if dlen >= 7 {
                out.push("apache-2".to_owned());
                out.push(d);
                out.push("apache2".to_owned());
                out.push("apache".to_owned());
            } else if dlen >= 6 {
                out.push("apache-2".to_owned());
                out.push("apache2".to_owned());
                out.push(d);
                out.push("apache".to_owned());
            } else {
                out.push("apache-2".to_owned());
                out.push("apache2".to_owned());
                out.push("apache".to_owned());
                out.push(d);
            }
            proof {
                assert(out.deep_view() =~= synonyms_spec(self@));
            }
            out
        } else {
            let mut out: Vec<String> = Vec::new();
            out.push(d);
            proof {
                assert(out.deep_view() =~= synonyms_spec(self@));
            }
            out
        }
    }
}

/// One of the enumerated canonical identifiers: not `Custom`, `File`,
/// `Multiple` or `Unspecified`.
pub open spec fn is_canonical(l: LicenseView) -> bool {
    rank(l) <= 22
}

/// No member of a `Multiple` expression is itself `Multiple`; parsing
/// only ever produces such values.
pub open spec fn no_nested_multiple(l: LicenseView) -> bool {
    match l {
        LicenseView::Multiple(ls) => forall|i: int|
            0 <= i < ls.len() ==> !((#[trigger] ls[i]) is Multiple),
        _ => true,
    }
}

/// Insertion grows the sequence by one.
proof fn lemma_insert_len(x: LicenseView, s: Seq<LicenseView>)
    ensures
        insert_lic(x, s).len() == s.len() + 1,
    decreases s.len(),
{
    if s.len() > 0 && lic_cmp(s[0], x) <= 0 {
        lemma_insert_len(x, s.drop_first());
    }
}

/// Sorting keeps the length.
proof fn lemma_sort_len(s: Seq<LicenseView>)
    ensures
        sort_lics(s).len() == s.len(),
    decreases s.len(),
{
    if s.len() > 0 {
        lemma_sort_len(s.drop_last());
        lemma_insert_len(s.last(), sort_lics(s.drop_last()));
    }
}

/// Splitting yields at least one piece.
proof fn lemma_split_nonempty(t: Seq<char>, start: int, i: int)
    ensures
        split_expr_rec(t, start, i).len() >= 1,
    decreases t.len() - i,
{
    if !(i < 0 || i >= t.len()) {
        if t[i] == '/' {
            lemma_split_nonempty(t, i + 1, i + 1);
        } else if or_at(t, i) {
            lemma_split_nonempty(t, i + 4, i + 4);
        } else {
            lemma_split_nonempty(t, start, i + 1);
        }
    }
}

/// What parsing yields is well formed: any `Multiple` has at least one
/// member, and no member is itself `Multiple`.
pub proof fn lemma_parse_wf(s: Seq<char>)
    ensures
        wf_view(parse_spec(s)),
        no_nested_multiple(parse_spec(s)),
{
    broadcast use vstd::seq_lib::group_to_multiset_ensures;

    let t = crate::textops::trim_spec(s);
    if t.len() > 0 && canon_of(t) is None && has_sep_from(t, 0) {
        let pieces = split_expr_rec(t, 0, 0).map_values(|p: Seq<char>| parse_flat(p));
        let ms = sort_lics(pieces);
        lemma_split_nonempty(t, 0, 0);
        lemma_sort_len(pieces);
        lemma_sort_multiset(pieces);
        assert forall|i: int| 0 <= i < ms.len() implies !((#[trigger] ms[i]) is Multiple)
            && wf_view(ms[i]) by {
            assert(ms.contains(ms[i]));
            assert(ms.to_multiset().count(ms[i]) > 0);
            assert(pieces.to_multiset().count(ms[i]) > 0);
            assert(pieces.contains(ms[i]));
            let j = choose|j: int| 0 <= j < pieces.len() && pieces[j] == ms[i];
            assert(pieces[j] == parse_flat(split_expr_rec(t, 0, 0)[j]));
        }
        assert(wf_view(parse_spec(s)));
    }
}

/// Sorted under the fixed total order.
pub open spec fn sorted_lics(s: Seq<LicenseView>) -> bool {
    forall|i: int, j: int| 0 <= i < j < s.len() ==> lic_cmp(#[trigger] s[i], #[trigger] s[j]) <= 0
}

/// The first position of `s` whose entry compares greater than `x`.
proof fn first_gt_index(x: LicenseView, s: Seq<LicenseView>) -> (j: int)
    ensures
        0 <= j <= s.len(),
        forall|i: int| 0 <= i < j ==> lic_cmp(#[trigger] s[i], x) <= 0,
        j < s.len() ==> lic_cmp(s[j], x) > 0,
    decreases s.len(),
{
    if s.len() == 0 {
        0
    } else if lic_cmp(s[0], x) <= 0 {
        let j = first_gt_index(x, s.drop_first()) + 1;
        assert forall|i: int| 0 <= i < j implies lic_cmp(#[trigger] s[i], x) <= 0 by {
            if i > 0 {
                assert(s.drop_first()[i - 1] == s[i]);
            }
        }
        j
    } else {
        0
    }
}

/// Inserting into a sorted sequence keeps it sorted.
proof fn lemma_insert_sorted(x: LicenseView, s: Seq<LicenseView>)
    requires
        sorted_lics(s),
    ensures
        sorted_lics(insert_lic(x, s)),
{
    let j = first_gt_index(x, s);
    lemma_insert_at(x, s, j);
    let r = insert_lic(x, s);
    assert forall|p: int, q: int| 0 <= p < q < r.len() implies lic_cmp(#[trigger] r[p], #[trigger] r[q])
        <= 0 by {
        if p < j {
            assert(r[p] == s[p]);
        } else if p == j {
            assert(r[p] == x);
        } else {
            assert(r[p] == s[p - 1]);
        }
        if q < j {
            assert(r[q] == s[q]);
        } else if q == j {
            assert(r[q] == x);
        } else {
            assert(r[q] == s[q - 1]);
        }
        if q == j {
            // r[p] is s[p] with p < j, so it compares at most x.
        } else if p == j {
            // r[q] is s[q - 1] with q - 1 >= j: the entry at j compares
            // greater than x, and later entries follow it in the order.
            lemma_lic_cmp_flip(s[j], x);
            if q - 1 > j {
                lemma_lic_cmp_trans(x, s[j], s[q - 1]);
            }
        }
    }
}

/// Insertion sort yields a sorted sequence.
proof fn lemma_sort_sorted(s: Seq<LicenseView>)
    ensures
        sorted_lics(sort_lics(s)),
    decreases s.len(),
{
    if s.len() > 0 {
        lemma_sort_sorted(s.drop_last());
        lemma_insert_sorted(s.last(), sort_lics(s.drop_last()));
    }
}

/// Insertion adds exactly one occurrence of the inserted element.
proof fn lemma_insert_multiset(x: LicenseView, s: Seq<LicenseView>)
    ensures
        insert_lic(x, s).to_multiset() =~= s.to_multiset().insert(x),
    decreases s.len(),
{
    broadcast use vstd::seq_lib::group_to_multiset_ensures;
    broadcast use vstd::multiset::group_multiset_axioms;

    if s.len() == 0 {
        assert(seq![x] =~= Seq::<LicenseView>::empty().push(x));
        assert(insert_lic(x, s).to_multiset() =~= s.to_multiset().insert(x));
    } else if lic_cmp(s[0], x) <= 0 {
        lemma_insert_multiset(x, s.drop_first());
        vstd::seq_lib::lemma_multiset_commutative(seq![s[0]], insert_lic(x, s.drop_first()));
        vstd::seq_lib::lemma_multiset_commutative(seq![s[0]], s.drop_first());
        assert(s =~= seq![s[0]] + s.drop_first());
        assert(insert_lic(x, s) == seq![s[0]] + insert_lic(x, s.drop_first()));
    } else {
        vstd::seq_lib::lemma_multiset_commutative(seq![x], s);
        assert(insert_lic(x, s) == seq![x] + s);
        assert(seq![x].to_multiset() =~= Multiset::<LicenseView>::empty().insert(x)) by {
            assert(seq![x] =~= Seq::<LicenseView>::empty().push(x));
        }
    }
}

/// Sorting keeps exactly the same members.
proof fn lemma_sort_multiset(s: Seq<LicenseView>)
    ensures
        sort_lics(s).to_multiset() =~= s.to_multiset(),
    decreases s.len(),
{
    broadcast use vstd::seq_lib::group_to_multiset_ensures;
    broadcast use vstd::multiset::group_multiset_axioms;

    if s.len() > 0 {
        lemma_sort_multiset(s.drop_last());
        lemma_insert_multiset(s.last(), sort_lics(s.drop_last()));
        assert(s.drop_last().push(s.last()) =~= s);
    }
}

/// When parsing yields a `Multiple`, its members are exactly the parsed
/// pieces of the expression, arranged in the fixed canonical order —
/// whatever order the input listed them in.
pub proof fn lemma_parse_multiple_sorted(s: Seq<char>)
    ensures
        parse_spec(s) matches LicenseView::Multiple(ms) ==> sorted_lics(ms) && ms.to_multiset()
            =~= split_expr_rec(crate::textops::trim_spec(s), 0, 0).map_values(
            |p: Seq<char>| parse_flat(p),
        ).to_multiset(),
{
    let t = crate::textops::trim_spec(s);
    if t.len() > 0 && canon_of(t) is None && has_sep_from(t, 0) {
        let pieces = split_expr_rec(t, 0, 0).map_values(|p: Seq<char>| parse_flat(p));
        lemma_sort_sorted(pieces);
        lemma_sort_multiset(pieces);
    }
}

/// Whatever the consumer's license, a dependency without any license is
/// refused.
pub proof fn lemma_unspecified_dependency_refused(l: LicenseView)
    ensures
        can_include_spec(l, LicenseView::Unspecified) == Compat::No,
{
}

/// Round trip of the canonical identifiers: displaying one and parsing
/// the result yields the identifier back, so its display is a fixed
/// point of `display` after `parse`.
#[verifier::rlimit(100)]
pub proof fn lemma_display_parse_roundtrip(l: LicenseView)
    requires
        is_canonical(l),
    ensures
        parse_spec(display_spec(l)) == l,
        display_spec(parse_spec(display_spec(l))) == display_spec(l),
{
    reveal_strlit("Unlicense");
    reveal_strlit("0BSD");
    reveal_strlit("CC0-1.0");
    reveal_strlit("MIT");
    reveal_strlit("X11");
    reveal_strlit("BSD-2-Clause");
    reveal_strlit("BSD-3-Clause");
    reveal_strlit("Apache-2.0");
    reveal_strlit("Apache-2.0 WITH LLVM-exception");
    reveal_strlit("LGPL-2.0-only");
    reveal_strlit("LGPL-2.0");
    reveal_strlit("LGPL-2.1-only");
    reveal_strlit("LGPL-2.1");
    reveal_strlit("LGPL-2.1-or-later");
    reveal_strlit("LGPL-2.1+");
    reveal_strlit("LGPL-3.0-only");
    reveal_strlit("LGPL-3.0");
    reveal_strlit("LGPL-3.0-or-later");
    reveal_strlit("LGPL-3.0+");
    reveal_strlit("MPL-1.1");
    reveal_strlit("MPL-2.0");
    reveal_strlit("GPL-2.0-only");
    reveal_strlit("GPL-2.0");
    reveal_strlit("GPL-2.0-or-later");
    reveal_strlit("GPL-2.0+");
    reveal_strlit("GPL-3.0-only");
    reveal_strlit("GPL-3.0");
    reveal_strlit("GPL-3.0-or-later");
    reveal_strlit("GPL-3.0+");
    reveal_strlit("AGPL-3.0-only");
    reveal_strlit("AGPL-3.0");
    reveal_strlit("AGPL-3.0-or-later");
    reveal_strlit("AGPL-3.0+");
    reveal_strlit("Zlib");
    match l {
        LicenseView::Unlicense => assert(parse_spec(display_spec(l)) == l),
        LicenseView::BSD_0_Clause => assert(parse_spec(display_spec(l)) == l),
        LicenseView::CC0_1_0 => assert(parse_spec(display_spec(l)) == l),
        LicenseView::MIT => assert(parse_spec(display_spec(l)) == l),
        LicenseView::X11 => assert(parse_spec(display_spec(l)) == l),
        LicenseView::BSD_2_Clause => assert(parse_spec(display_spec(l)) == l),
        LicenseView::BSD_3_Clause => {
            assert("BSD-3-Clause"@[4] != "BSD-2-Clause"@[4]);
            assert(parse_spec(display_spec(l)) == l);
        },
        LicenseView::Apache_2_0 => assert(parse_spec(display_spec(l)) == l),
        LicenseView::Apache_2_0_WITH_LLVM_exception => assert(parse_spec(display_spec(l)) == l),
        LicenseView::LGPL_2_0 => assert(parse_spec(display_spec(l)) == l),
        LicenseView::LGPL_2_1 => {
            assert("LGPL-2.1-only"@[7] != "LGPL-2.0-only"@[7]);
            assert(parse_spec(display_spec(l)) == l);
        },
        LicenseView::LGPL_2_1Plus => assert(parse_spec(display_spec(l)) == l),
        LicenseView::LGPL_3_0 => {
            assert("LGPL-3.0-only"@[5] != "LGPL-2.0-only"@[5]);
            assert("LGPL-3.0-only"@[5] != "LGPL-2.1-only"@[5]);
            assert(parse_spec(display_spec(l)) == l);
        },
        LicenseView::LGPL_3_0Plus => {
            assert("LGPL-3.0-or-later"@[5] != "LGPL-2.1-or-later"@[5]);
            assert(parse_spec(display_spec(l)) == l);
        },
        LicenseView::MPL_1_1 => assert(parse_spec(display_spec(l)) == l),
        LicenseView::MPL_2_0 => assert(parse_spec(display_spec(l)) == l),
        LicenseView::GPL_2_0 => assert(parse_spec(display_spec(l)) == l),
        LicenseView::GPL_2_0Plus => assert(parse_spec(display_spec(l)) == l),
        LicenseView::GPL_3_0 => {
            assert("GPL-3.0-only"@[4] != "GPL-2.0-only"@[4]);
            assert("GPL-3.0-only"@[0] != "BSD-2-Clause"@[0]);
            assert("GPL-3.0-only"@[0] != "BSD-3-Clause"@[0]);
            assert(parse_spec(display_spec(l)) == l);
        },
        LicenseView::GPL_3_0Plus => {
            assert("GPL-3.0-or-later"@[4] != "GPL-2.0-or-later"@[4]);
            assert(parse_spec(display_spec(l)) == l);
        },
        LicenseView::AGPL_3_0 => assert(parse_spec(display_spec(l)) == l),
        LicenseView::AGPL_3_0Plus => assert(parse_spec(display_spec(l)) == l),
        LicenseView::Zlib => assert(parse_spec(display_spec(l)) == l),
        _ => assert(false),
    }
}

/// Parses one expression piece; pieces hold no separator.
fn parse_piece(p: &str) -> (r: License)
    ensures
        r@ == parse_flat(p@),
{
    let t = crate::textops::trim(p);
    if t.unicode_len() == 0 {
        return License::Unspecified;
    }
    if let Option::Some(l) = canon_lookup(t) {
        return l;
    }
    License::Custom(t.to_owned())
}

} // verus!
