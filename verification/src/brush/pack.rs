//! A brush pack — a named, iconed, two-colored group of brushes.
//!
//! A brush may belong to any number of packs: adding one to a pack copies a
//! reference, it does not move the brush. The pack is the sole authority on
//! membership; nothing on a brush records which packs hold it.

use vstd::prelude::*;

use crate::brush::pack_icons::{is_pack_icon, pack_icon_names};
use crate::text::{
    all_whitespace, chars_of, concat3, concat4, decimal, decimal_string, hex_digit, is_hex_digit,
    is_unicode_whitespace, is_whitespace, lemma_ascii_utf8_len, lemma_utf8_len_ascii_head, owned, str_eq, utf8_len,
};

verus! {

/// How far a pack may be edited.
#[derive(Clone, Copy, Debug, Default, PartialEq, Eq, Structural)]
pub enum PackMutability {
    /// Shipped and fixed: no brush may be added or removed, and the pack may
    /// not be renamed, restyled or deleted.
    #[default]
    Locked,
    /// Shipped, but the painter chooses what is in it. Favorites.
    Members,
    /// The painter's own. Everything about it is theirs.
    Full,
}

/// A group of brushes, as the library holds it.
#[derive(Clone, Debug, PartialEq, Eq)]
pub struct BrushPack {
    pub id: String,
    pub name: String,
    pub description: String,
    pub icon: String,
    pub primary: String,
    pub secondary: String,
    pub mutability: PackMutability,
    /// The brushes in this pack, in the painter's chosen order. The sole
    /// authority on membership.
    pub members: Vec<String>,
}

/// The error a member edit of a locked pack gets.
pub open spec fn members_locked_message(name: Seq<char>) -> Seq<char> {
    "brush pack '"@ + name + "' is built in — its brushes cannot be changed"@
}

/// The error an identity edit of a shipped pack gets.
pub open spec fn identity_locked_message(name: Seq<char>) -> Seq<char> {
    "brush pack '"@ + name + "' is built in and cannot be renamed, restyled or deleted"@
}

/// The error a reorder of an absent brush gets.
pub open spec fn not_a_member_message(name: Seq<char>) -> Seq<char> {
    "brush pack '"@ + name + "' does not contain that brush"@
}

/// A `Result<(), String>` seen through the string's characters.
pub open spec fn unit_result_view(r: Result<(), String>) -> Result<(), Seq<char>> {
    match r {
        Ok(()) => Ok(()),
        Err(m) => Err(m@),
    }
}

/// The member ids of `members`, as character sequences.
pub open spec fn ids(members: Seq<String>) -> Seq<Seq<char>> {
    members.map_values(|m: String| m@)
}

/// Whether some member of `members` is `brush`.
pub open spec fn has_member(members: Seq<String>, brush: Seq<char>) -> bool {
    exists|i: int| 0 <= i < members.len() && (#[trigger] members[i])@ == brush
}

/// The member list after adding `brush`: unchanged if it is already there,
/// otherwise `brush` appended.
pub open spec fn with_member(members: Seq<String>, brush: String) -> Seq<String> {
    if has_member(members, brush@) {
        members
    } else {
        members.push(brush)
    }
}

/// Index of the first member equal to `brush` (meaningful when there is one).
pub open spec fn first_member_index(members: Seq<String>, brush: Seq<char>) -> int
    decreases members.len(),
{
    if members.len() == 0 {
        0
    } else if members[0]@ == brush {
        0
    } else {
        1 + first_member_index(members.drop_first(), brush)
    }
}

/// `members` with every occurrence of `brush` dropped, order kept.
pub open spec fn without_member(members: Seq<String>, brush: Seq<char>) -> Seq<String>
    decreases members.len(),
{
    if members.len() == 0 {
        members
    } else if members.last()@ == brush {
        without_member(members.drop_last(), brush)
    } else {
        without_member(members.drop_last(), brush).push(members.last())
    }
}

/// The members whose flag in `keep` is set, order kept.
pub open spec fn kept_members(members: Seq<String>, keep: Seq<bool>) -> Seq<String>
    decreases members.len(),
{
    if members.len() == 0 || keep.len() == 0 {
        Seq::empty()
    } else if keep[members.len() - 1] {
        kept_members(members.drop_last(), keep.take(members.len() - 1)).push(members.last())
    } else {
        kept_members(members.drop_last(), keep.take(members.len() - 1))
    }
}

/// Whether a call of `f` on a string holding `x` may return `b`.
pub open spec fn may_return<F: Fn(&str) -> bool>(f: F, x: Seq<char>, b: bool) -> bool {
    exists|s: &str| s@ == x && #[trigger] f.ensures((s,), b)
}

/// Where `reorder(brush, index)` puts `brush`: out of its old slot and in at
/// `index`, clamped to the end of the list.
pub open spec fn reordered(members: Seq<String>, from: int, index: int) -> Seq<String> {
    let rest = members.remove(from);
    let to = if index < rest.len() {
        index
    } else {
        rest.len() as int
    };
    rest.insert(to, members[from])
}

/// Whether `m`'s id fields other than the member list equal `o`'s.
pub open spec fn same_identity(m: BrushPack, o: BrushPack) -> bool {
    &&& m.id == o.id
    &&& m.name == o.name
    &&& m.description == o.description
    &&& m.icon == o.icon
    &&& m.primary == o.primary
    &&& m.secondary == o.secondary
    &&& m.mutability == o.mutability
}

proof fn lemma_first_member_index(members: Seq<String>, brush: Seq<char>, i: int)
    requires
        0 <= i < members.len(),
        members[i]@ == brush,
        forall|k: int| 0 <= k < i ==> (#[trigger] members[k])@ != brush,
    ensures
        first_member_index(members, brush) == i,
    decreases i,
{
    if i > 0 {
        assert(members[0]@ != brush);
        assert forall|k: int| 0 <= k < i - 1 implies (#[trigger] members.drop_first()[k])@ != brush by {
            assert(members.drop_first()[k] == members[k + 1]);
        }
        lemma_first_member_index(members.drop_first(), brush, i - 1);
    }
}

impl BrushPack {
    /// A pack the painter owns, with everything editable.
    pub fn new(id: String, name: String, icon: String, primary: String, secondary: String) -> (p:
        Self)
        ensures
            p.id == id,
            p.name == name,
            p.icon == icon,
            p.primary == primary,
            p.secondary == secondary,
            p.description@ == Seq::<char>::empty(),
            p.mutability == PackMutability::Full,
            p.members@.len() == 0,
    {
        BrushPack {
            id,
            name,
            description: String::new(),
            icon,
            primary,
            secondary,
            mutability: PackMutability::Full,
            members: Vec::new(),
        }
    }

    /// Reject an edit to this pack's member list, if it is not the painter's
    /// to make.
    pub fn ensure_members_editable(&self) -> (r: Result<(), String>)
        ensures
            r is Ok <==> self.mutability != PackMutability::Locked,
            r matches Err(m) ==> m@ == members_locked_message(self.name@),
    {
        match self.mutability {
            PackMutability::Locked => Err(
                concat3(
                    "brush pack '",
                    self.name.as_str(),
                    "' is built in — its brushes cannot be changed",
                ),
            ),
            PackMutability::Members | PackMutability::Full => Ok(()),
        }
    }

    /// Reject a change to this pack's name, description, icon, colors, or its
    /// existence.
    pub fn ensure_identity_editable(&self) -> (r: Result<(), String>)
        ensures
            r is Ok <==> self.mutability == PackMutability::Full,
            r matches Err(m) ==> m@ == identity_locked_message(self.name@),
    {
        match self.mutability {
            PackMutability::Locked | PackMutability::Members => Err(
                concat3(
                    "brush pack '",
                    self.name.as_str(),
                    "' is built in and cannot be renamed, restyled or deleted",
                ),
            ),
            PackMutability::Full => Ok(()),
        }
    }

    /// Whether the painter may add and remove brushes here.
    pub fn can_edit_members(&self) -> (r: bool)
        ensures
            r == (self.mutability != PackMutability::Locked),
    {
        self.ensure_members_editable().is_ok()
    }

    /// Whether the painter may rename, restyle or delete this pack.
    pub fn can_edit_identity(&self) -> (r: bool)
        ensures
            r == (self.mutability == PackMutability::Full),
    {
        self.ensure_identity_editable().is_ok()
    }

    /// Whether `brush` is a member.
    pub fn contains(&self, brush: &str) -> (r: bool)
        ensures
            r == has_member(self.members@, brush@),
    {
        let mut i: usize = 0;
        while i < self.members.len()
            invariant
                i <= self.members@.len(),
                forall|k: int| 0 <= k < i ==> (#[trigger] self.members@[k])@ != brush@,
            decreases self.members.len() - i,
        {
            if str_eq(self.members[i].as_str(), brush) {
                return true;
            }
            i = i + 1;
        }
        false
    }

    /// Add `brush` to the end of the member list. Idempotent — a brush already
    /// present keeps its position, so re-adding it is not a reorder.
    pub fn add(&mut self, brush: String) -> (r: Result<(), String>)
        ensures
            same_identity(*final(self), *old(self)),
            r is Ok <==> old(self).mutability != PackMutability::Locked,
            r matches Err(m) ==> m@ == members_locked_message(old(self).name@),
            r is Err ==> final(self).members@ == old(self).members@,
            r is Ok ==> final(self).members@ == with_member(old(self).members@, brush),
    {
        self.ensure_members_editable()?;
        if !self.contains(brush.as_str()) {
            self.members.push(brush);
        }
        Ok(())
    }

    /// Remove `brush`. Removing one that is not here is not an error: the
    /// operation is convergent, so a retry after a partial write is safe.
    pub fn remove(&mut self, brush: &str) -> (r: Result<(), String>)
        ensures
            same_identity(*final(self), *old(self)),
            r is Ok <==> old(self).mutability != PackMutability::Locked,
            r matches Err(m) ==> m@ == members_locked_message(old(self).name@),
            r is Err ==> final(self).members@ == old(self).members@,
            r is Ok ==> final(self).members@ == without_member(old(self).members@, brush@),
    {
        self.ensure_members_editable()?;
        let mut kept: Vec<String> = Vec::new();
        let mut i: usize = 0;
        while i < self.members.len()
            invariant
                i <= self.members@.len(),
                self.members@ == old(self).members@,
                kept@ == without_member(self.members@.take(i as int), brush@),
            decreases self.members.len() - i,
        {
            let ghost prefix = self.members@.take(i as int);
            assert(self.members@.take(i + 1).drop_last() =~= prefix);
            if !str_eq(self.members[i].as_str(), brush) {
                kept.push(self.members[i].clone());
            }
            i = i + 1;
        }
        assert(self.members@.take(self.members@.len() as int) =~= self.members@);
        self.members = kept;
        Ok(())
    }

    /// Move `brush` to `index` within the member list (an index past the end
    /// puts it last).
    pub fn reorder(&mut self, brush: &str, index: usize) -> (r: Result<(), String>)
        ensures
            same_identity(*final(self), *old(self)),
            r is Ok <==> old(self).mutability != PackMutability::Locked && has_member(
                old(self).members@,
                brush@,
            ),
            old(self).mutability == PackMutability::Locked ==> (r matches Err(m) && m@
                == members_locked_message(old(self).name@)),
            old(self).mutability != PackMutability::Locked && !has_member(
                old(self).members@,
                brush@,
            ) ==> (r matches Err(m) && m@ == not_a_member_message(old(self).name@)),
            r is Err ==> final(self).members@ == old(self).members@,
            r is Ok ==> final(self).members@ == reordered(
                old(self).members@,
                first_member_index(old(self).members@, brush@),
                index as int,
            ),
    {
        self.ensure_members_editable()?;
        let mut from: usize = 0;
        while from < self.members.len() && !str_eq(self.members[from].as_str(), brush)
            invariant
                from <= self.members@.len(),
                forall|k: int| 0 <= k < from ==> (#[trigger] self.members@[k])@ != brush@,
            decreases self.members.len() - from,
        {
            from = from + 1;
        }
        if from == self.members.len() {
            return Err(
                concat3("brush pack '", self.name.as_str(), "' does not contain that brush"),
            );
        }
        proof {
            lemma_first_member_index(self.members@, brush@, from as int);
        }
        let member = self.members.remove(from);
        let to = if index < self.members.len() {
            index
        } else {
            self.members.len()
        };
        self.members.insert(to, member);
        Ok(())
    }

    /// Drop members that no longer name a brush that exists. Returns whether
    /// anything was dropped, so a caller can persist only when it must.
    ///
    /// Bypasses [`Self::ensure_members_editable`] deliberately: this is not an
    /// edit the painter asked for, it is the library refusing to point at a
    /// ghost.
    pub fn retain_members<F: Fn(&str) -> bool>(&mut self, brush_exists: F) -> (r: bool)
        requires
            forall|s: &str| brush_exists.requires((s,)),
        ensures
            same_identity(*final(self), *old(self)),
            exists|keep: Seq<bool>|
                {
                    &&& keep.len() == old(self).members@.len()
                    &&& forall|i: int|
                        0 <= i < keep.len() ==> #[trigger] may_return(
                            brush_exists,
                            old(self).members@[i]@,
                            keep[i],
                        )
                    &&& final(self).members@ == kept_members(old(self).members@, keep)
                },
            r == (final(self).members@.len() != old(self).members@.len()),
    {
        let before = self.members.len();
        let ghost mut keep: Seq<bool> = Seq::empty();
        let mut kept: Vec<String> = Vec::new();
        let mut i: usize = 0;
        while i < self.members.len()
            invariant
                i <= self.members@.len(),
                before == self.members@.len(),
                self.members@ == old(self).members@,
                forall|s: &str| brush_exists.requires((s,)),
                keep.len() == i,
                forall|k: int|
                    0 <= k < i ==> #[trigger] may_return(brush_exists, self.members@[k]@, keep[k]),
                kept@ == kept_members(self.members@.take(i as int), keep),
                kept@.len() <= i,
            decreases self.members.len() - i,
        {
            let m = self.members[i].as_str();
            let b = brush_exists(m);
            proof {
                let old_keep = keep;
                keep = keep.push(b);
                assert(keep.take(i as int) =~= old_keep);
                assert(self.members@.take(i + 1).drop_last() =~= self.members@.take(i as int));
                assert forall|k: int|
                    0 <= k < i + 1 implies #[trigger] may_return(
                        brush_exists,
                        self.members@[k]@,
                        keep[k],
                    ) by {
                    if k < i {
                        assert(keep[k] == old_keep[k]);
                        assert(may_return(brush_exists, self.members@[k]@, old_keep[k]));
                    } else {
                        assert(m@ == self.members@[k]@);
                        assert(brush_exists.ensures((m,), keep[k]));
                    }
                }
            }
            if b {
                kept.push(self.members[i].clone());
            }
            i = i + 1;
        }
        assert(self.members@.take(before as int) =~= self.members@);
        assert(kept@ == kept_members(old(self).members@, keep));
        self.members = kept;
        self.members.len() != before
    }
}

/// Whether `value` passes [`validate_color`]: `#` then six or eight ASCII
/// hex digits. The digit count is taken in bytes, as `str::len` counts.
pub open spec fn color_check(value: Seq<char>, field: Seq<char>) -> Result<(), Seq<char>> {
    if value.len() == 0 || value[0] != '#' {
        Err(field + " '"@ + value + "' must start with '#'"@)
    } else if utf8_len(value.drop_first()) != 6 && utf8_len(value.drop_first()) != 8 {
        Err(
            field + " '"@ + value + "' must have 6 or 8 hex digits, got "@ + decimal(
                utf8_len(value.drop_first()),
            ),
        )
    } else if exists|i: int| 1 <= i < value.len() && !is_hex_digit(#[trigger] value[i]) {
        Err(field + " '"@ + value + "' contains a non-hex digit"@)
    } else {
        Ok(())
    }
}

/// Whether `value` has the `collection:name` shape: a colon with something
/// on both sides of the first one.
pub open spec fn icon_shape_ok(value: Seq<char>) -> bool {
    exists|i: int|
        0 < i < value.len() - 1 && value[i] == ':' && (forall|j: int|
            0 <= j < i ==> #[trigger] value[j] != ':')
}

/// The error a malformed icon gets.
pub open spec fn icon_message(value: Seq<char>) -> Seq<char> {
    "pack icon '"@ + value + "' must be a `collection:name` Iconify reference"@
}

/// What [`validate_pack`] decides, in the order it checks.
pub open spec fn pack_check(name: Seq<char>, icon: Seq<char>, primary: Seq<char>, secondary: Seq<
    char,
>) -> Result<(), Seq<char>> {
    if all_whitespace(name) {
        Err("a brush pack needs a name"@)
    } else if !icon_shape_ok(icon) {
        Err(icon_message(icon))
    } else if color_check(primary, "pack primary color"@) is Err {
        color_check(primary, "pack primary color"@)
    } else {
        color_check(secondary, "pack secondary color"@)
    }
}

/// What [`validate_shipped_pack`] decides.
pub open spec fn shipped_pack_check(pack: BrushPack) -> Result<(), Seq<char>> {
    let base = pack_check(pack.name@, pack.icon@, pack.primary@, pack.secondary@);
    if base is Err {
        base
    } else if !pack_icon_names().contains(pack.icon@) {
        Err(
            "shipped pack '"@ + pack.id@ + "' names icon '"@ + pack.icon@
                + "', which is not in PACK_ICONS and would not render"@,
        )
    } else {
        Ok(())
    }
}

/// Accept `#rrggbb` or `#rrggbbaa`, hex digits only.
///
/// Colors are validated on the way in rather than defaulted, because a pack
/// file may come from anywhere and a silently-black pack is worse than a
/// rejected one.
pub fn validate_color(value: &str, field: &str) -> (r: Result<(), String>)
    ensures
        unit_result_view(r) == color_check(value@, field@),
{
    let cs = chars_of(value);
    if cs.len() == 0 || cs[0] != '#' {
        return Err(concat4(field, " '", value, "' must start with '#'"));
    }
    let total = value.as_bytes().len();
    proof {
        lemma_utf8_len_ascii_head(value@);
    }
    let n = total - 1;
    if n != 6 && n != 8 {
        let count = decimal_string(n as u64);
        let mut m = concat3(field, " '", value);
        m.append("' must have 6 or 8 hex digits, got ");
        m.append(count.as_str());
        return Err(m);
    }
    let mut i: usize = 1;
    while i < cs.len()
        invariant
            1 <= i <= cs@.len(),
            cs@ == value@,
            value@.len() > 0 && value@[0] == '#',
            n == utf8_len(value@.drop_first()),
            n == 6 || n == 8,
            forall|k: int| 1 <= k < i ==> is_hex_digit(#[trigger] cs@[k]),
        decreases cs.len() - i,
    {
        if !hex_digit(cs[i]) {
            assert(!is_hex_digit(value@[i as int]));
            return Err(concat4(field, " '", value, "' contains a non-hex digit"));
        }
        i = i + 1;
    }
    Ok(())
}

/// Accept a `collection:name` Iconify reference.
///
/// Shape only. Whether the icon renders is the renderer's question: an
/// unbundled name falls back to the fallback glyph, which is what lets a
/// third-party pack degrade gracefully instead of showing a hole.
pub fn validate_icon(value: &str) -> (r: Result<(), String>)
    ensures
        r is Ok <==> icon_shape_ok(value@),
        r matches Err(m) ==> m@ == icon_message(value@),
{
    let cs = chars_of(value);
    let mut i: usize = 0;
    while i < cs.len() && cs[i] != ':'
        invariant
            i <= cs@.len(),
            cs@ == value@,
            forall|k: int| 0 <= k < i ==> #[trigger] cs@[k] != ':',
        decreases cs.len() - i,
    {
        i = i + 1;
    }
    if i < cs.len() && i > 0 && i + 1 < cs.len() {
        Ok(())
    } else {
        proof {
            if icon_shape_ok(value@) {
                let j = choose|j: int|
                    0 < j < value@.len() - 1 && value@[j] == ':' && (forall|k: int|
                        0 <= k < j ==> #[trigger] value@[k] != ':');
                if j < i {
                    assert(cs@[j] != ':');
                }
                if i < j {
                    assert(value@[i as int] != ':');
                }
            }
        }
        Err(
            concat3(
                "pack icon '",
                value,
                "' must be a `collection:name` Iconify reference",
            ),
        )
    }
}

/// Whether `s` is empty once surrounding white space is trimmed.
pub(crate) fn trims_to_empty(s: &str) -> (r: bool)
    ensures
        r == all_whitespace(s@),
{
    let cs = chars_of(s);
    let mut i: usize = 0;
    while i < cs.len()
        invariant
            i <= cs@.len(),
            cs@ == s@,
            forall|k: int| 0 <= k < i ==> is_unicode_whitespace(#[trigger] cs@[k]),
        decreases cs.len() - i,
    {
        if !is_whitespace(cs[i]) {
            return false;
        }
        i = i + 1;
    }
    true
}

/// Validate a pack the way an imported one must be: shape-checked colors and
/// icon, and a name that is actually a name.
pub fn validate_pack(name: &str, icon: &str, primary: &str, secondary: &str) -> (r: Result<
    (),
    String,
>)
    ensures
        unit_result_view(r) == pack_check(name@, icon@, primary@, secondary@),
{
    if trims_to_empty(name) {
        return Err(owned("a brush pack needs a name"));
    }
    validate_icon(icon)?;
    validate_color(primary, "pack primary color")?;
    validate_color(secondary, "pack secondary color")?;
    Ok(())
}

/// Validate a shipped pack, which is held to the stricter rule that its icon
/// must be one the renderer actually has.
pub fn validate_shipped_pack(pack: &BrushPack) -> (r: Result<(), String>)
    ensures
        unit_result_view(r) == shipped_pack_check(*pack),
{
    validate_pack(
        pack.name.as_str(),
        pack.icon.as_str(),
        pack.primary.as_str(),
        pack.secondary.as_str(),
    )?;
    if !is_pack_icon(pack.icon.as_str()) {
        let mut m = concat3("shipped pack '", pack.id.as_str(), "' names icon '");
        m.append(pack.icon.as_str());
        m.append("', which is not in PACK_ICONS and would not render");
        return Err(m);
    }
    Ok(())
}

/// A color passes exactly when it is `#` followed by six or eight ASCII hex
/// digits; the field name only shapes the error.
pub proof fn color_accepts_exactly_hex_forms(value: Seq<char>, field: Seq<char>)
    ensures
        color_check(value, field) is Ok <==> ((value.len() == 7 || value.len() == 9) && value[0]
            == '#' && forall|i: int| 1 <= i < value.len() ==> is_hex_digit(#[trigger] value[i])),
{
    if value.len() > 0 && value[0] == '#' {
        let digits = value.drop_first();
        if forall|i: int| 1 <= i < value.len() ==> is_hex_digit(#[trigger] value[i]) {
            assert forall|i: int| 0 <= i < digits.len() implies (digits[i] as u32) < 0x80 by {
                assert(is_hex_digit(value[i + 1]));
            }
            lemma_ascii_utf8_len(digits);
        }
    }
}

/// Adding a member is idempotent: after an add the brush is a member, and
/// adding it again changes nothing (in particular, does not move it).
pub proof fn adding_is_idempotent(members: Seq<String>, brush: String)
    ensures
        has_member(with_member(members, brush), brush@),
        with_member(with_member(members, brush), brush) == with_member(members, brush),
{
    if !has_member(members, brush@) {
        let m = members.push(brush);
        assert(m[members.len() as int]@ == brush@);
    }
}

/// Removing a member is convergent: afterwards the brush is absent, removing
/// it again changes nothing, and removing an absent brush is a no-op.
pub proof fn removal_is_convergent(members: Seq<String>, brush: Seq<char>)
    ensures
        !has_member(without_member(members, brush), brush),
        without_member(without_member(members, brush), brush) == without_member(members, brush),
        !has_member(members, brush) ==> without_member(members, brush) == members,
    decreases members.len(),
{
    if members.len() > 0 {
        let init = members.drop_last();
        removal_is_convergent(init, brush);
        if !has_member(members, brush) {
            assert forall|i: int| 0 <= i < init.len() implies (#[trigger] init[i])@ != brush by {
                assert(init[i] == members[i]);
            }
            assert(members.last()@ != brush);
            assert(init.push(members.last()) =~= members);
        }
        let w = without_member(init, brush);
        if members.last()@ != brush {
            let wp = w.push(members.last());
            assert(wp.drop_last() =~= w);
            assert forall|i: int| 0 <= i < wp.len() implies (#[trigger] wp[i])@ != brush by {
                if i < w.len() {
                    assert(wp[i] == w[i]);
                }
            }
        }
    }
}

/// A reorder moves only the named brush: the list keeps its length, the
/// brush lands at the requested index (clamped to the end), and nothing is
/// added or lost.
pub proof fn reorder_moves_only_the_brush(members: Seq<String>, from: int, index: int)
    requires
        0 <= from < members.len(),
        index >= 0,
    ensures
        reordered(members, from, index).len() == members.len(),
        reordered(members, from, index)[if index < members.len() - 1 {
            index
        } else {
            members.len() - 1
        }] == members[from],
        reordered(members, from, index).to_multiset() == members.to_multiset(),
{
    let rest = members.remove(from);
    let to = if index < rest.len() {
        index
    } else {
        rest.len() as int
    };
    vstd::seq_lib::to_multiset_remove(members, from);
    vstd::seq_lib::to_multiset_insert(rest, to, members[from]);
    assert(members.to_multiset().contains(members[from])) by {
        broadcast use vstd::seq_lib::group_to_multiset_ensures;
    }
    assert(members.to_multiset().remove(members[from]).insert(members[from])
        =~= members.to_multiset()) by {
        broadcast use vstd::multiset::group_multiset_axioms;
    }
}

} // verus!
