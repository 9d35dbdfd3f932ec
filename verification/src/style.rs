//! Style descriptors: the optional-field inline style record attached to a
//! text run, and the precedence-ordered merge that combines a specific
//! descriptor with an ambient one.

use crate::error::{EngineError, GErr};
use crate::text::{cut_at, find_char, lemma_cut_at_subrange, str_cut_at, str_eq};
use vstd::prelude::*;

verus! {

/// An RGB color.
#[derive(Clone, Copy, PartialEq, Eq, Structural, Debug)]
pub struct Rgb {
    pub red: u8,
    pub green: u8,
    pub blue: u8,
}

/// An inline style record. Every field is independently optional: an absent
/// field means "inherit from context", not "off".
#[verifier::ext_equal]
#[derive(Debug, PartialEq)]
pub struct StyleDescriptor {
    pub bold: Option<bool>,
    pub italic: Option<bool>,
    pub underline: Option<bool>,
    pub size: Option<u8>,
    pub color: Option<Rgb>,
    pub semantic_tag: Option<String>,
}

/// The mathematical view of a style descriptor: the same record with the
/// semantic tag read as a character sequence.
#[verifier::ext_equal]
pub ghost struct GStyle {
    pub bold: Option<bool>,
    pub italic: Option<bool>,
    pub underline: Option<bool>,
    pub size: Option<u8>,
    pub color: Option<Rgb>,
    pub semantic_tag: Option<Seq<char>>,
}

impl View for StyleDescriptor {
    type V = GStyle;

    open spec fn view(&self) -> GStyle {
        GStyle {
            bold: self.bold,
            italic: self.italic,
            underline: self.underline,
            size: self.size,
            color: self.color,
            semantic_tag: match self.semantic_tag {
                Some(t) => Some(t@),
                None => None,
            },
        }
    }
}

/// The style with every field absent.
pub open spec fn empty_style() -> GStyle {
    GStyle {
        bold: None,
        italic: None,
        underline: None,
        size: None,
        color: None,
        semantic_tag: None,
    }
}

/// Merge `specific` over `ambient`: per field, the specific value when
/// present, the ambient one otherwise. Order encodes precedence; the
/// operation is not commutative.
pub open spec fn merge_styles(specific: GStyle, ambient: GStyle) -> GStyle {
    GStyle {
        bold: if specific.bold is Some {
            specific.bold
        } else {
            ambient.bold
        },
        italic: if specific.italic is Some {
            specific.italic
        } else {
            ambient.italic
        },
        underline: if specific.underline is Some {
            specific.underline
        } else {
            ambient.underline
        },
        size: if specific.size is Some {
            specific.size
        } else {
            ambient.size
        },
        color: if specific.color is Some {
            specific.color
        } else {
            ambient.color
        },
        semantic_tag: if specific.semantic_tag is Some {
            specific.semantic_tag
        } else {
            ambient.semantic_tag
        },
    }
}

/// Field-by-field combination of two style records, the receiver taking
/// precedence.
pub trait CharacterPropertyExt: View<V = GStyle> + Sized {
    /// Merge `self` (specific) with `other` (ambient).
    fn merge(&self, other: &Self) -> (r: Self)
        ensures
            r@ == merge_styles(self@, other@),
    ;
}

impl CharacterPropertyExt for StyleDescriptor {
    fn merge(&self, other: &Self) -> (r: Self) {
        StyleDescriptor {
            bold: if self.bold.is_some() {
                self.bold
            } else {
                other.bold
            },
            italic: if self.italic.is_some() {
                self.italic
            } else {
                other.italic
            },
            underline: if self.underline.is_some() {
                self.underline
            } else {
                other.underline
            },
            size: if self.size.is_some() {
                self.size
            } else {
                other.size
            },
            color: if self.color.is_some() {
                self.color
            } else {
                other.color
            },
            semantic_tag: match &self.semantic_tag {
                Some(t) => Some(t.clone()),
                None => match &other.semantic_tag {
                    Some(t) => Some(t.clone()),
                    None => None,
                },
            },
        }
    }
}

/// The semicolon-separated declarations of a style attribute, in order,
/// empty segments included.
pub open spec fn decls_of(s: Seq<char>) -> Seq<Seq<char>>
    decreases s.len(),
{
    let head = cut_at(s, ';');
    if head.len() >= s.len() {
        seq![s]
    } else {
        seq![head] + decls_of(s.subrange(head.len() + 1 as int, s.len() as int))
    }
}

/// The key of one declaration: everything before its first `:`.
pub open spec fn decl_key(d: Seq<char>) -> Seq<char> {
    cut_at(d, ':')
}

/// A declaration is malformed when it has no `:` separator at all.
pub open spec fn decl_malformed(d: Seq<char>) -> bool {
    decl_key(d).len() >= d.len()
}

/// The value of one declaration: the segment between its first and second
/// `:` (or its end).
pub open spec fn decl_value(d: Seq<char>) -> Seq<char> {
    cut_at(d.subrange(decl_key(d).len() + 1 as int, d.len() as int), ':')
}

/// The first malformed declaration, in textual order, if any.
pub open spec fn first_malformed(ds: Seq<Seq<char>>) -> Option<Seq<char>>
    decreases ds.len(),
{
    if ds.len() == 0 {
        None
    } else if decl_malformed(ds[0]) {
        Some(ds[0])
    } else {
        first_malformed(ds.drop_first())
    }
}

/// The value of the last declaration whose key is `k`, if any: a later
/// declaration of the same key overrides an earlier one.
pub open spec fn lookup_decl(ds: Seq<Seq<char>>, k: Seq<char>) -> Option<Seq<char>>
    decreases ds.len(),
{
    if ds.len() == 0 {
        None
    } else if decl_key(ds.last()) == k {
        Some(decl_value(ds.last()))
    } else {
        lookup_decl(ds.drop_last(), k)
    }
}

/// A font-size value with every trailing `px` marker removed.
pub open spec fn strip_px(v: Seq<char>) -> Seq<char>
    decreases v.len(),
{
    if v.len() >= 2 && v[v.len() - 2] == 'p' && v[v.len() - 1] == 'x' {
        strip_px(v.subrange(0, v.len() - 2))
    } else {
        v
    }
}

/// A nonempty, all-decimal-digit sequence.
pub open spec fn is_digits(s: Seq<char>) -> bool {
    s.len() > 0 && forall|i: int| 0 <= i < s.len() ==> '0' <= #[trigger] s[i] <= '9'
}

/// The number a digit sequence denotes.
pub open spec fn dec_val(s: Seq<char>) -> int
    decreases s.len(),
{
    if s.len() == 0 {
        0
    } else {
        10 * dec_val(s.drop_last()) + (s.last() as int - 48)
    }
}

proof fn lemma_dec_val_nonneg(s: Seq<char>)
    requires
        forall|i: int| 0 <= i < s.len() ==> '0' <= #[trigger] s[i] <= '9',
    ensures
        dec_val(s) >= 0,
    decreases s.len(),
{
    if s.len() > 0 {
        lemma_dec_val_nonneg(s.drop_last());
    }
}

proof fn lemma_dec_val_prefix(s: Seq<char>, i: int)
    requires
        0 <= i <= s.len(),
        forall|k: int| 0 <= k < s.len() ==> '0' <= #[trigger] s[k] <= '9',
    ensures
        dec_val(s.subrange(0, i)) <= dec_val(s),
    decreases s.len(),
{
    if i == s.len() {
        assert(s.subrange(0, i) =~= s);
    } else {
        let t = s.drop_last();
        assert(s.subrange(0, i) =~= t.subrange(0, i));
        lemma_dec_val_prefix(t, i);
        lemma_dec_val_nonneg(t);
    }
}

/// The site-specific size floor: sizes below 15 are corrected up to 16.
pub open spec fn floor_size(n: int) -> int {
    if n < 15 {
        16
    } else {
        n
    }
}

/// The one recognized color keyword.
pub open spec fn blue() -> Rgb {
    Rgb { red: 0, green: 0, blue: 255 }
}

/// What resolving a style attribute yields: the parsed descriptor, or the
/// typed failure for the first malformed declaration or a font-size value
/// that does not denote a byte-sized number.
pub open spec fn resolve_spec(attr: Option<Seq<char>>) -> Result<GStyle, GErr> {
    match attr {
        None => Ok(empty_style()),
        Some(s) => {
            let ds = decls_of(s);
            match first_malformed(ds) {
                Some(d) => Err(GErr::MalformedDeclaration(d)),
                None => {
                    let fsz = lookup_decl(ds, "font-size"@);
                    if fsz is Some && !(is_digits(strip_px(fsz->0)) && dec_val(strip_px(fsz->0))
                        <= 255) {
                        Err(GErr::MalformedFontSize(fsz->0))
                    } else {
                        Ok(
                            GStyle {
                                bold: if lookup_decl(ds, "font-weight"@) == Some("bold"@) {
                                    Some(true)
                                } else {
                                    None
                                },
                                italic: if lookup_decl(ds, "font-style"@) == Some("italic"@) {
                                    Some(true)
                                } else {
                                    None
                                },
                                underline: if lookup_decl(ds, "text-decoration"@) == Some(
                                    "underline"@,
                                ) {
                                    Some(true)
                                } else {
                                    None
                                },
                                size: match fsz {
                                    Some(v) => Some(floor_size(dec_val(strip_px(v))) as u8),
                                    None => None,
                                },
                                color: if lookup_decl(ds, "color"@) == Some("blue"@) {
                                    Some(blue())
                                } else {
                                    None
                                },
                                semantic_tag: None,
                            },
                        )
                    }
                },
            }
        },
    }
}

proof fn lemma_first_malformed_none(ds: Seq<Seq<char>>)
    ensures
        (first_malformed(ds) is None) <==> (forall|i: int|
            0 <= i < ds.len() ==> !decl_malformed(ds[i])),
    decreases ds.len(),
{
    if ds.len() > 0 {
        lemma_first_malformed_none(ds.drop_first());
        assert(forall|i: int| 0 <= i < ds.len() - 1 ==> #[trigger] ds.drop_first()[i] == ds[i
            + 1]);
        if !decl_malformed(ds[0]) && first_malformed(ds.drop_first()) is None {
            assert forall|i: int| 0 <= i < ds.len() implies !decl_malformed(ds[i]) by {
                if i > 0 {
                    assert(ds.drop_first()[i - 1] == ds[i]);
                }
            }
        }
    }
}

proof fn lemma_first_malformed_at(ds: Seq<Seq<char>>, i: int)
    requires
        0 <= i < ds.len(),
        decl_malformed(ds[i]),
        forall|k: int| 0 <= k < i ==> !decl_malformed(ds[k]),
    ensures
        first_malformed(ds) == Some(ds[i]),
    decreases ds.len(),
{
    if i > 0 {
        lemma_first_malformed_at(ds.drop_first(), i - 1);
    }
}

proof fn lemma_lookup_step(ds: Seq<Seq<char>>, i: int, k: Seq<char>)
    requires
        0 <= i < ds.len(),
    ensures
        lookup_decl(ds.subrange(0, i + 1), k) == (if decl_key(ds[i]) == k {
            Some(decl_value(ds[i]))
        } else {
            lookup_decl(ds.subrange(0, i), k)
        }),
{
    let t = ds.subrange(0, i + 1);
    assert(t.last() == ds[i]);
    assert(t.drop_last() =~= ds.subrange(0, i));
}

/// Split a style attribute into its semicolon-separated declarations.
fn split_decls(s: &str) -> (r: Vec<String>)
    ensures
        r@.map_values(|d: String| d@) == decls_of(s@),
{
    let n = s.unicode_len();
    let mut out: Vec<String> = Vec::new();
    let mut p: usize = 0;
    proof {
        assert(s@.subrange(0, n as int) =~= s@);
        assert(out@.map_values(|d: String| d@) =~= Seq::<Seq<char>>::empty());
        assert(Seq::<Seq<char>>::empty() + decls_of(s@) =~= decls_of(s@));
    }
    loop
        invariant_except_break
            p <= n,
            n == s@.len(),
            decls_of(s@) == out@.map_values(|d: String| d@) + decls_of(
                s@.subrange(p as int, n as int),
            ),
        ensures
            out@.map_values(|d: String| d@) == decls_of(s@),
        decreases n - p,
    {
        let ghost pre_map = out@.map_values(|d: String| d@);
        let ghost rest = s@.subrange(p as int, n as int);
        let q = find_char(s, p, ';');
        let seg = s.substring_char(p, q).to_owned();
        out.push(seg);
        proof {
            lemma_cut_at_subrange(rest, ';', q - p);
            assert(rest.subrange(0, q - p) =~= s@.subrange(p as int, q as int));
            assert(out@.map_values(|d: String| d@) =~= pre_map.push(seg@));
            if q < n {
                assert(cut_at(rest, ';').len() < rest.len());
                assert(rest.subrange(cut_at(rest, ';').len() + 1 as int, rest.len() as int) =~= s@
                    .subrange(q + 1, n as int));
                assert(decls_of(rest) == seq![seg@] + decls_of(s@.subrange(q + 1, n as int)));
                assert(pre_map + decls_of(rest) =~= pre_map.push(seg@) + decls_of(
                    s@.subrange(q + 1, n as int),
                ));
            } else {
                assert(cut_at(rest, ';') =~= rest);
                assert(decls_of(rest) == seq![rest]);
                assert(rest =~= seg@);
                assert(pre_map + decls_of(rest) =~= pre_map.push(seg@));
            }
        }
        if q < n {
            p = q + 1;
        } else {
            break;
        }
    }
    out
}

/// Parse the first `e` characters of `s` as a decimal number no larger
/// than a byte holds.
fn parse_byte(s: &str, e: usize) -> (r: Option<u8>)
    requires
        e <= s@.len(),
    ensures
        ({
            let sub = s@.subrange(0, e as int);
            &&& (r is Some <==> (is_digits(sub) && dec_val(sub) <= 255))
            &&& (r is Some ==> r->0 as int == dec_val(sub))
        }),
{
    let ghost sub = s@.subrange(0, e as int);
    if e == 0 {
        return None;
    }
    let mut acc: u32 = 0;
    let mut i: usize = 0;
    while i < e
        invariant
            0 <= i <= e <= s@.len(),
            sub == s@.subrange(0, e as int),
            forall|k: int| 0 <= k < i ==> '0' <= #[trigger] s@[k] <= '9',
            acc <= 255,
            acc as int == dec_val(sub.subrange(0, i as int)),
        decreases e - i,
    {
        let c = s.get_char(i);
        if c < '0' || c > '9' {
            proof {
                assert(sub[i as int] == c);
            }
            return None;
        }
        let d: u32 = (c as u32) - 48;
        let nv: u32 = acc * 10 + d;
        proof {
            assert(sub.subrange(0, i + 1).drop_last() =~= sub.subrange(0, i as int));
            assert(sub.subrange(0, i + 1).last() == c);
            assert(dec_val(sub.subrange(0, i + 1)) == nv as int);
        }
        if nv > 255 {
            proof {
                if is_digits(sub) && dec_val(sub) <= 255 {
                    lemma_dec_val_prefix(sub, i + 1);
                    assert(false);
                }
            }
            return None;
        }
        acc = nv;
        i = i + 1;
    }
    proof {
        assert(sub.subrange(0, e as int) =~= sub);
        assert(is_digits(sub));
    }
    Some(acc as u8)
}

/// Resolve an inline style attribute to a style descriptor, as
/// `resolve_spec` describes: semicolon-separated `key:value` declarations,
/// a later declaration overriding an earlier one of the same key; a
/// declaration without `:` is a fatal error; `font-weight:bold`,
/// `font-style:italic`, `text-decoration:underline`, `font-size:<N>px`
/// (floored up to 16 below 15) and `color:blue` are recognized; any other
/// color keyword leaves the color unset and any other key is ignored.
pub fn resolve_style(attr: Option<&str>) -> (r: Result<StyleDescriptor, EngineError>)
    ensures
        ({
            let av = match attr {
                Some(s) => Some(s@),
                None => None::<Seq<char>>,
            };
            match r {
                Ok(d) => resolve_spec(av) == Ok::<GStyle, GErr>(d@),
                Err(e) => resolve_spec(av) == Err::<GStyle, GErr>(e@),
            }
        }),
{
    let s = match attr {
        Some(s) => s,
        None => {
            return Ok(
                StyleDescriptor {
                    bold: None,
                    italic: None,
                    underline: None,
                    size: None,
                    color: None,
                    semantic_tag: None,
                },
            );
        },
    };
    let ds = split_decls(s);
    let ghost dsv = decls_of(s@);
    let mut fw: Option<String> = None;
    let mut fs: Option<String> = None;
    let mut td: Option<String> = None;
    let mut sz: Option<String> = None;
    let mut cl: Option<String> = None;
    let mut idx: usize = 0;
    while idx < ds.len()
        invariant
            0 <= idx <= ds@.len(),
            attr matches Some(a) && a@ == s@,
            dsv == decls_of(s@),
            ds@.map_values(|d: String| d@) == dsv,
            forall|k: int| 0 <= k < idx ==> !decl_malformed(dsv[k]),
            (match fw {
                Some(v) => Some(v@),
                None => None,
            }) == lookup_decl(dsv.subrange(0, idx as int), "font-weight"@),
            (match fs {
                Some(v) => Some(v@),
                None => None,
            }) == lookup_decl(dsv.subrange(0, idx as int), "font-style"@),
            (match td {
                Some(v) => Some(v@),
                None => None,
            }) == lookup_decl(dsv.subrange(0, idx as int), "text-decoration"@),
            (match sz {
                Some(v) => Some(v@),
                None => None,
            }) == lookup_decl(dsv.subrange(0, idx as int), "font-size"@),
            (match cl {
                Some(v) => Some(v@),
                None => None,
            }) == lookup_decl(dsv.subrange(0, idx as int), "color"@),
        decreases ds@.len() - idx,
    {
        let d = &ds[idx];
        proof {
            assert(dsv[idx as int] == d@);
            reveal_strlit("font-weight");
            reveal_strlit("font-style");
            reveal_strlit("text-decoration");
            reveal_strlit("font-size");
            reveal_strlit("color");
        }
        let k = str_cut_at(d.as_str(), ':');
        let dn = d.as_str().unicode_len();
        let kn = k.as_str().unicode_len();
        if kn >= dn {
            proof {
                lemma_first_malformed_at(dsv, idx as int);
            }
            let dc = d.clone();
            proof {
                assert(resolve_spec(Some(s@)) == Err::<GStyle, GErr>(
                    GErr::MalformedDeclaration(dc@),
                ));
            }
            return Err(EngineError::MalformedDeclaration(dc));
        }
        let rest = d.as_str().substring_char(kn + 1, dn);
        let v = str_cut_at(rest, ':');
        proof {
            assert(v@ == decl_value(d@));
            lemma_lookup_step(dsv, idx as int, "font-weight"@);
            lemma_lookup_step(dsv, idx as int, "font-style"@);
            lemma_lookup_step(dsv, idx as int, "text-decoration"@);
            lemma_lookup_step(dsv, idx as int, "font-size"@);
            lemma_lookup_step(dsv, idx as int, "color"@);
        }
        if str_eq(k.as_str(), "font-weight") {
            fw = Some(v);
        } else if str_eq(k.as_str(), "font-style") {
            fs = Some(v);
        } else if str_eq(k.as_str(), "text-decoration") {
            td = Some(v);
        } else if str_eq(k.as_str(), "font-size") {
            sz = Some(v);
        } else if str_eq(k.as_str(), "color") {
            cl = Some(v);
        }
        idx = idx + 1;
    }
    proof {
        assert(dsv.subrange(0, dsv.len() as int) =~= dsv);
        lemma_first_malformed_none(dsv);
    }
    // Every declaration is well-formed; decide the size, then the rest.
    let size: Option<u8> = match &sz {
        Some(v) => {
            let vs = v.as_str();
            let vn = vs.unicode_len();
            let mut e: usize = vn;
            proof {
                assert(vs@.subrange(0, vn as int) =~= vs@);
            }
            while e >= 2 && vs.get_char(e - 2) == 'p' && vs.get_char(e - 1) == 'x'
                invariant
                    0 <= e <= vn,
                    vn == vs@.len(),
                    strip_px(vs@) == strip_px(vs@.subrange(0, e as int)),
                decreases e,
            {
                proof {
                    let cur = vs@.subrange(0, e as int);
                    assert(cur[e - 2] == vs@[e - 2] && cur[e - 1] == vs@[e - 1]);
                    assert(cur.subrange(0, e - 2) =~= vs@.subrange(0, e - 2));
                }
                e = e - 2;
            }
            proof {
                assert(strip_px(vs@.subrange(0, e as int)) == vs@.subrange(0, e as int));
            }
            match parse_byte(vs, e) {
                Some(b) => {
                    if b < 15 {
                        Some(16)
                    } else {
                        Some(b)
                    }
                },
                None => {
                    return Err(EngineError::MalformedFontSize(v.clone()));
                },
            }
        },
        None => None,
    };
    let bold: Option<bool> = match &fw {
        Some(v) => if str_eq(v.as_str(), "bold") {
            Some(true)
        } else {
            None
        },
        None => None,
    };
    let italic: Option<bool> = match &fs {
        Some(v) => if str_eq(v.as_str(), "italic") {
            Some(true)
        } else {
            None
        },
        None => None,
    };
    let underline: Option<bool> = match &td {
        Some(v) => if str_eq(v.as_str(), "underline") {
            Some(true)
        } else {
            None
        },
        None => None,
    };
    let color: Option<Rgb> = match &cl {
        Some(v) => if str_eq(v.as_str(), "blue") {
            Some(Rgb { red: 0, green: 0, blue: 255 })
        } else {
            None
        },
        None => None,
    };
    Ok(StyleDescriptor { bold, italic, underline, size, color, semantic_tag: None })
}

/// Merge precedence: per field, the merge takes the specific descriptor's
/// value when it is set and the ambient one's otherwise, and merging a
/// descriptor with itself changes nothing.
pub proof fn lemma_merge_precedence(a: GStyle, b: GStyle)
    ensures
        merge_styles(a, b).bold == (if a.bold is Some {
            a.bold
        } else {
            b.bold
        }),
        merge_styles(a, b).italic == (if a.italic is Some {
            a.italic
        } else {
            b.italic
        }),
        merge_styles(a, b).underline == (if a.underline is Some {
            a.underline
        } else {
            b.underline
        }),
        merge_styles(a, b).size == (if a.size is Some {
            a.size
        } else {
            b.size
        }),
        merge_styles(a, b).color == (if a.color is Some {
            a.color
        } else {
            b.color
        }),
        merge_styles(a, b).semantic_tag == (if a.semantic_tag is Some {
            a.semantic_tag
        } else {
            b.semantic_tag
        }),
        merge_styles(a, a) == a,
{
    assert(merge_styles(a, a) =~= a);
}

} // verus!
