//! Package records and the parsers for the package manager's text output.

use vstd::prelude::*;

use crate::text::{
    chars_of, decimal, digit_char, find_char, find_in, listed_names, push_char, push_decimal,
    same_text, split_lines, split_words, string_of, trim, trim_range, upper_of, uppercase, words,
};

verus! {

/// The repository a package comes from.
#[derive(Debug, Clone, Copy, PartialEq, Eq, Structural)]
pub enum PackageSource {
    /// The distribution's official repositories.
    Official,
    /// The community repository, reached through a helper.
    Aur,
}

impl PackageSource {
    /// The source's display name.
    pub fn to_string(&self) -> (r: String)
        ensures
            r@ == match *self {
                PackageSource::Official => "Official"@,
                PackageSource::Aur => "AUR"@,
            },
    {
        match self {
            PackageSource::Official => String::from_str("Official"),
            PackageSource::Aur => String::from_str("AUR"),
        }
    }
}

impl Default for PackageSource {
    fn default() -> (r: Self)
        ensures
            r == PackageSource::Official,
    {
        PackageSource::Official
    }
}

/// A package as a list shows it.
#[derive(Debug, Clone)]
pub struct Package {
    pub name: String,
    pub version: String,
    pub description: String,
    pub source: PackageSource,
}

impl Package {
    /// A package known by name only.
    pub fn new(name: &str, source: PackageSource) -> (r: Self)
        ensures
            r.name@ == name@,
            r.version@.len() == 0,
            r.description@.len() == 0,
            r.source == source,
    {
        Package { name: name.to_owned(), version: String::new(), description: String::new(), source }
    }

    /// A package with its version and description.
    pub fn with_details(name: &str, version: &str, description: &str, source: PackageSource) -> (r:
        Self)
        ensures
            r.name@ == name@,
            r.version@ == version@,
            r.description@ == description@,
            r.source == source,
    {
        Package {
            name: name.to_owned(),
            version: version.to_owned(),
            description: description.to_owned(),
            source,
        }
    }
}

/// Everything the detail view shows about a package.
#[derive(Debug, Clone)]
pub struct PackageInfo {
    pub name: String,
    pub version: String,
    pub description: String,
    pub url: String,
    pub licenses: Vec<String>,
    pub groups: Vec<String>,
    pub provides: Vec<String>,
    pub depends: Vec<String>,
    pub optional_deps: Vec<String>,
    pub conflicts: Vec<String>,
    pub replaces: Vec<String>,
    pub download_size: u64,
    pub installed_size: u64,
    pub packager: String,
    pub build_date: String,
    pub install_reason: Option<String>,
    pub source: PackageSource,
}

/// The texts a list of strings holds.
pub open spec fn texts(v: Vec<String>) -> Seq<Seq<char>> {
    v@.map_values(|s: String| s@)
}

/// A `Key : Value` line, both sides trimmed; a line without a colon is none.
pub open spec fn line_entry(line: Seq<char>) -> Option<(Seq<char>, Seq<char>)> {
    let t = trim(line);
    let p = find_char(t, ':');
    if p < t.len() {
        Some((trim(t.take(p)), trim(t.skip(p + 1))))
    } else {
        None
    }
}

/// The value of the last line whose key is `key`, or nothing.
pub open spec fn field_value(lines: Seq<Seq<char>>, key: Seq<char>) -> Seq<char>
    decreases lines.len(),
{
    if lines.len() == 0 {
        seq![]
    } else {
        match line_entry(lines.last()) {
            Some(e) => if e.0 == key {
                e.1
            } else {
                field_value(lines.drop_last(), key)
            },
            None => field_value(lines.drop_last(), key),
        }
    }
}

fn entry_of(line: &str) -> (r: Option<(String, String)>)
    ensures
        r is None <==> line_entry(line@) is None,
        r matches Some(e) ==> line_entry(line@) == Some((e.0@, e.1@)),
{
    let chars = chars_of(line);
    let n = chars.len();
    assert(chars@.subrange(0, n as int) =~= line@);
    let (a, b) = trim_range(&chars, 0, n);
    let p = find_in(&chars, a, b, ':');
    if a + p == b {
        return None;
    }
    let ghost t = chars@.subrange(a as int, b as int);
    assert(t.take(p as int) =~= chars@.subrange(a as int, (a + p) as int));
    assert(t.skip(p + 1) =~= chars@.subrange((a + p + 1) as int, b as int));
    let (ka, kb) = trim_range(&chars, a, a + p);
    let (va, vb) = trim_range(&chars, a + p + 1, b);
    Some((string_of(&chars, ka, kb), string_of(&chars, va, vb)))
}

fn value_for(entries: &Vec<Option<(String, String)>>, key: &str, lines: Ghost<Seq<Seq<char>>>) -> (r:
    String)
    requires
        entries@.len() == lines@.len(),
        forall|i: int|
            0 <= i < lines@.len() ==> match #[trigger] entries@[i] {
                None => line_entry(lines@[i]) is None,
                Some(e) => line_entry(lines@[i]) == Some((e.0@, e.1@)),
            },
    ensures
        r@ == field_value(lines@, key@),
{
    let mut i: usize = entries.len();
    assert(lines@.take(i as int) =~= lines@);
    while i > 0
        invariant
            i <= entries@.len() == lines@.len(),
            forall|j: int|
                0 <= j < lines@.len() ==> match #[trigger] entries@[j] {
                    None => line_entry(lines@[j]) is None,
                    Some(e) => line_entry(lines@[j]) == Some((e.0@, e.1@)),
                },
            field_value(lines@, key@) == field_value(lines@.take(i as int), key@),
        decreases i,
    {
        let ghost pre = lines@.take(i as int);
        assert(pre.drop_last() =~= lines@.take(i - 1));
        assert(pre.last() == lines@[i - 1]);
        match &entries[i - 1] {
            Some(e) => {
                if same_text(e.0.as_str(), key) {
                    return e.1.clone();
                }
            },
            None => {},
        }
        i = i - 1;
    }
    String::new()
}

/// Bytes in a kibibyte, a mebibyte and a gibibyte.
pub const KIB: u64 = 1024;
pub const MIB: u64 = 1048576;
pub const GIB: u64 = 1073741824;

/// The number of bytes an uppercase unit name stands for; an unknown unit
/// counts as bytes.
pub open spec fn unit_bytes(unit: Seq<char>) -> nat {
    if unit == "KIB"@ || unit == "KB"@ {
        KIB as nat
    } else if unit == "MIB"@ || unit == "MB"@ {
        MIB as nat
    } else if unit == "GIB"@ || unit == "GB"@ {
        GIB as nat
    } else {
        1
    }
}

/// The number of bytes an uppercase unit name stands for.
pub fn size_multiplier(unit: &str) -> (r: u64)
    ensures
        r == unit_bytes(unit@),
{
    if same_text(unit, "KIB") || same_text(unit, "KB") {
        KIB
    } else if same_text(unit, "MIB") || same_text(unit, "MB") {
        MIB
    } else if same_text(unit, "GIB") || same_text(unit, "GB") {
        GIB
    } else {
        1
    }
}

pub open spec fn is_digit(c: char) -> bool {
    '0' <= c && c <= '9'
}

pub open spec fn digit_value(c: char) -> nat {
    (c as u32 - '0' as u32) as nat
}

pub open spec fn all_digits(s: Seq<char>) -> bool {
    forall|i: int| 0 <= i < s.len() ==> is_digit(#[trigger] s[i])
}

/// The number written by decimal digits.
pub open spec fn digits_value(ds: Seq<char>) -> nat
    decreases ds.len(),
{
    if ds.len() == 0 {
        0
    } else {
        digits_value(ds.drop_last()) * 10 + digit_value(ds.last())
    }
}

/// `floor(m * 0.ds)`, for fraction digits `ds`.
pub open spec fn fraction_scaled(ds: Seq<char>, m: nat) -> nat
    decreases ds.len(),
{
    if ds.len() == 0 {
        0
    } else {
        (m * digit_value(ds[0]) + fraction_scaled(ds.drop_first(), m)) / 10
    }
}

/// The amount written by `num`, times `m`, rounded down and capped at the
/// largest `u64`. `num` is a decimal number with an optional sign and an
/// optional fraction; a negative amount is 0, and anything else counts as 0.
pub open spec fn scaled_amount(num: Seq<char>, m: nat) -> nat {
    let signed = num.len() > 0 && (num[0] == '+' || num[0] == '-');
    let body = if signed {
        num.drop_first()
    } else {
        num
    };
    let dot = find_char(body, '.');
    let ip = body.take(dot);
    let fp = if dot < body.len() {
        body.skip(dot + 1)
    } else {
        seq![]
    };
    if !all_digits(ip) || !all_digits(fp) || ip.len() + fp.len() == 0 || num[0] == '-' {
        0
    } else if digits_value(ip) * m + fraction_scaled(fp, m) > u64::MAX {
        u64::MAX as nat
    } else {
        digits_value(ip) * m + fraction_scaled(fp, m)
    }
}

/// A size such as `1.5 MiB` in bytes: two words, a number and a unit;
/// anything else is 0.
pub open spec fn size_in_bytes(s: Seq<char>) -> nat {
    let parts = words(s);
    if parts.len() != 2 {
        0
    } else {
        scaled_amount(parts[0], unit_bytes(upper_of(parts[1])))
    }
}

proof fn lemma_digits_value_step(ds: Seq<char>, k: int)
    requires
        0 <= k < ds.len(),
    ensures
        digits_value(ds.take(k + 1)) == digits_value(ds.take(k)) * 10 + digit_value(ds[k]),
{
    assert(ds.take(k + 1).drop_last() =~= ds.take(k));
}

/// The amount `num` writes, times `multiplier`, as `scaled_amount` says.
#[verifier::loop_isolation(false)]
#[verifier::rlimit(50)]
pub fn scaled_bytes(num: &str, multiplier: u64) -> (r: u64)
    requires
        1 <= multiplier <= GIB,
    ensures
        r == scaled_amount(num@, multiplier as nat),
{
    let chars = chars_of(num);
    let ghost s = num@;
    let n = chars.len();
    if n == 0 {
        return 0;
    }
    let negative = chars[0] == '-';
    let from: usize = if chars[0] == '+' || chars[0] == '-' {
        1
    } else {
        0
    };
    let ghost body = if from == 1 {
        s.drop_first()
    } else {
        s
    };
    assert(chars@.subrange(from as int, n as int) =~= body);
    let dot = find_in(&chars, from, n, '.');
    let ghost ip = body.take(dot as int);
    let ghost fp = if dot + from < n {
        body.skip(dot + 1)
    } else {
        seq![]
    };
    let frac_from: usize = if from + dot < n {
        from + dot + 1
    } else {
        n
    };
    assert(fp =~= chars@.subrange(frac_from as int, n as int));
    assert(ip =~= chars@.subrange(from as int, (from + dot) as int));
    if dot == 0 && frac_from == n {
        return 0;
    }
    // integer part, noting when it exceeds u64
    let mut whole: u64 = 0;
    let mut big = false;
    let mut k: usize = 0;
    while k < dot
        invariant
            chars@ == s,
            from + dot <= n,
            n == chars@.len(),
            ip =~= chars@.subrange(from as int, (from + dot) as int),
            k <= dot,
            all_digits(ip.take(k as int)),
            !big ==> whole == digits_value(ip.take(k as int)),
            big ==> digits_value(ip.take(k as int)) > u64::MAX,
        decreases dot - k,
    {
        let c = chars[from + k];
        if !('0' <= c && c <= '9') {
            assert(ip[k as int] == c);
            assert(!all_digits(ip));
            return 0;
        }
        let d = (c as u32 - '0' as u32) as u64;
        proof {
            lemma_digits_value_step(ip, k as int);
            assert(ip.take(k + 1) =~= ip.take(k as int).push(c));
        }
        if !big {
            if whole > (u64::MAX - d) / 10 {
                big = true;
            } else {
                whole = whole * 10 + d;
            }
        }
        k = k + 1;
    }
    assert(ip.take(dot as int) =~= ip);
    // fraction part, from its last digit back
    let mut frac: u64 = 0;
    let mut j: usize = n;
    while j > frac_from
        invariant
            chars@ == s,
            frac_from <= j <= n,
            n == chars@.len(),
            fp =~= chars@.subrange(frac_from as int, n as int),
            1 <= multiplier <= GIB,
            all_digits(chars@.subrange(j as int, n as int)),
            frac == fraction_scaled(chars@.subrange(j as int, n as int), multiplier as nat),
            frac < multiplier,
        decreases j - frac_from,
    {
        let c = chars[j - 1];
        if !('0' <= c && c <= '9') {
            assert(fp[j - 1 - frac_from] == c);
            assert(!all_digits(fp));
            assert(scaled_amount(s, multiplier as nat) == 0);
            return 0;
        }
        let d = (c as u32 - '0' as u32) as u64;
        proof {
            assert(chars@.subrange(j - 1, n as int).drop_first() =~= chars@.subrange(j as int, n as int));
            assert forall|t: int| 0 <= t < n - (j - 1) implies is_digit(
                #[trigger] chars@.subrange(j - 1, n as int)[t],
            ) by {
                if t > 0 {
                    assert(chars@.subrange(j - 1, n as int)[t] == chars@.subrange(j as int, n as int)[t - 1]);
                }
            }
            assert(multiplier * d + frac < 10 * multiplier) by (nonlinear_arith)
                requires
                    d <= 9,
                    frac < multiplier,
            ;
        }
        frac = (multiplier * d + frac) / 10;
        j = j - 1;
    }
    if negative {
        return 0;
    }
    if big {
        proof {
            assert(digits_value(ip) * multiplier >= digits_value(ip)) by (nonlinear_arith)
                requires
                    multiplier >= 1,
            ;
        }
        return u64::MAX;
    }
    assert(whole as u128 * multiplier as u128 <= 0xffff_ffff_ffff_ffffu128 * 0x4000_0000u128)
        by (nonlinear_arith)
        requires
            whole <= 0xffff_ffff_ffff_ffffu64,
            multiplier <= 0x4000_0000u64,
    ;
    let total: u128 = whole as u128 * multiplier as u128 + frac as u128;
    if total > u64::MAX as u128 {
        u64::MAX
    } else {
        total as u64
    }
}

/// Parses a size such as `1.5 MiB` into bytes; anything that is not a
/// number followed by a unit is 0.
pub fn parse_size(s: &str) -> (r: u64)
    ensures
        r == size_in_bytes(s@),
{
    let parts = split_words(s);
    if parts.len() != 2 {
        return 0;
    }
    let unit = uppercase(parts[1].as_str());
    let m = size_multiplier(unit.as_str());
    scaled_bytes(parts[0].as_str(), m)
}

/// `num / den` rounded to the nearest integer, ties to the even one.
pub open spec fn round_half_even(num: nat, den: nat) -> nat {
    let q = num / den;
    let r = num % den;
    if 2 * r < den {
        q
    } else if 2 * r > den {
        q + 1
    } else if q % 2 == 0 {
        q
    } else {
        q + 1
    }
}

/// `num / den` written with exactly two decimals.
pub open spec fn two_decimals(num: nat, den: nat) -> Seq<char> {
    let h = round_half_even(100 * num, den);
    decimal(h / 100) + seq!['.', digit_char((h % 100) / 10), digit_char(h % 10)]
}

/// A byte count as people read it.
pub open spec fn size_text(bytes: nat) -> Seq<char> {
    if bytes >= GIB {
        two_decimals(bytes, GIB as nat) + " GiB"@
    } else if bytes >= MIB {
        two_decimals(bytes, MIB as nat) + " MiB"@
    } else if bytes >= KIB {
        two_decimals(bytes, KIB as nat) + " KiB"@
    } else {
        decimal(bytes) + " B"@
    }
}

fn push_two_decimals(out: &mut String, num: u64, den: u64)
    requires
        den > 0,
    ensures
        final(out)@ == old(out)@ + two_decimals(num as nat, den as nat),
{
    let n: u128 = num as u128 * 100;
    let d: u128 = den as u128;
    let q = n / d;
    let r = n % d;
    let h: u128 = if 2 * r < d {
        q
    } else if 2 * r > d {
        q + 1
    } else if q % 2 == 0 {
        q
    } else {
        q + 1
    };
    push_decimal(out, h / 100);
    crate::text::push_char(out, '.');
    push_decimal(out, (h % 100) / 10);
    push_decimal(out, h % 10);
    assert(out@ =~= old(out)@ + two_decimals(num as nat, den as nat));
}

/// A byte count as people read it, such as `1.50 MiB`.
pub fn format_size(bytes: u64) -> (r: String)
    ensures
        r@ == size_text(bytes as nat),
{
    let mut out = String::new();
    if bytes >= GIB {
        push_two_decimals(&mut out, bytes, GIB);
        out.append(" GiB");
    } else if bytes >= MIB {
        push_two_decimals(&mut out, bytes, MIB);
        out.append(" MiB");
    } else if bytes >= KIB {
        push_two_decimals(&mut out, bytes, KIB);
        out.append(" KiB");
    } else {
        push_decimal(&mut out, bytes as u128);
        out.append(" B");
    }
    out
}

/// The items joined with `", "` between them.
pub open spec fn joined(items: Seq<Seq<char>>) -> Seq<char>
    decreases items.len(),
{
    if items.len() == 0 {
        seq![]
    } else if items.len() == 1 {
        items[0]
    } else {
        joined(items.drop_last()) + ", "@ + items.last()
    }
}

/// One bullet line per item.
pub open spec fn bullets(items: Seq<Seq<char>>) -> Seq<char>
    decreases items.len(),
{
    if items.len() == 0 {
        seq![]
    } else {
        bullets(items.drop_last()) + "   • "@ + items.last() + "\n"@
    }
}

/// The name, version and description lines.
pub open spec fn header_text(info: PackageInfo) -> Seq<char> {
    "📦 "@ + info.name@ + " "@ + info.version@ + "\n"@ + "   "@ + info.description@ + "\n\n"@
}

/// The link line, when there is a link.
pub open spec fn url_text(info: PackageInfo) -> Seq<char> {
    if info.url@.len() > 0 {
        "🔗 "@ + info.url@ + "\n"@
    } else {
        seq![]
    }
}

/// The license line, when there are licenses.
pub open spec fn license_text(info: PackageInfo) -> Seq<char> {
    if info.licenses@.len() > 0 {
        "📜 License: "@ + joined(texts(info.licenses)) + "\n"@
    } else {
        seq![]
    }
}

/// The sizes line.
pub open spec fn sizes_text(info: PackageInfo) -> Seq<char> {
    "💾 Download: "@ + size_text(info.download_size as nat) + " | Installed: "@ + size_text(
        info.installed_size as nat,
    ) + "\n"@
}

/// A titled list of bullets, when the list is not empty.
pub open spec fn list_text(title: Seq<char>, items: Vec<String>) -> Seq<char> {
    if items@.len() > 0 {
        title + decimal(items@.len()) + "):\n"@ + bullets(texts(items))
    } else {
        seq![]
    }
}

/// The detail text of a package.
pub open spec fn display_text(info: PackageInfo) -> Seq<char> {
    header_text(info) + url_text(info) + license_text(info) + sizes_text(info) + list_text(
        "\n📋 Dependencies ("@,
        info.depends,
    ) + list_text("\n📋 Optional Dependencies ("@, info.optional_deps)
}

fn push_list(out: &mut String, title: &str, items: &Vec<String>)
    ensures
        final(out)@ == old(out)@ + list_text(title@, *items),
{
    if items.len() > 0 {
        out.append(title);
        push_decimal(out, items.len() as u128);
        out.append("):\n");
        push_bullets(out, items);
        assert(out@ =~= old(out)@ + list_text(title@, *items));
    } else {
        assert(out@ =~= old(out)@ + list_text(title@, *items));
    }
}

fn push_joined(out: &mut String, items: &Vec<String>)
    ensures
        final(out)@ == old(out)@ + joined(texts(*items)),
{
    let mut i: usize = 0;
    while i < items.len()
        invariant
            i <= items@.len(),
            out@ == old(out)@ + joined(texts(*items).take(i as int)),
        decreases items@.len() - i,
    {
        let ghost t = texts(*items).take(i + 1);
        assert(t.drop_last() =~= texts(*items).take(i as int));
        if i > 0 {
            out.append(", ");
        }
        out.append(items[i].as_str());
        proof {
            if i == 0 {
                assert(texts(*items).take(0) =~= Seq::<Seq<char>>::empty());
            }
        }
        i = i + 1;
    }
    assert(texts(*items).take(items@.len() as int) =~= texts(*items));
}

fn push_bullets(out: &mut String, items: &Vec<String>)
    ensures
        final(out)@ == old(out)@ + bullets(texts(*items)),
{
    let mut i: usize = 0;
    while i < items.len()
        invariant
            i <= items@.len(),
            out@ == old(out)@ + bullets(texts(*items).take(i as int)),
        decreases items@.len() - i,
    {
        let ghost t = texts(*items).take(i + 1);
        assert(t.drop_last() =~= texts(*items).take(i as int));
        out.append("   • ");
        out.append(items[i].as_str());
        out.append("\n");
        assert(out@ =~= old(out)@ + bullets(t));
        i = i + 1;
    }
    assert(texts(*items).take(items@.len() as int) =~= texts(*items));
}

impl PackageInfo {
    /// The text the detail view shows for this package.
    pub fn to_display_string(&self) -> (r: String)
        ensures
            r@ == display_text(*self),
    {
        let mut out = String::new();
        out.append("📦 ");
        out.append(self.name.as_str());
        out.append(" ");
        out.append(self.version.as_str());
        out.append("\n");
        out.append("   ");
        out.append(self.description.as_str());
        out.append("\n\n");
        assert(out@ =~= header_text(*self));
        let ghost after_head = out@;
        if !self.url.as_str().is_empty() {
            out.append("🔗 ");
            out.append(self.url.as_str());
            out.append("\n");
        }
        assert(out@ =~= after_head + url_text(*self));
        let ghost after_url = out@;
        if self.licenses.len() > 0 {
            out.append("📜 License: ");
            push_joined(&mut out, &self.licenses);
            out.append("\n");
        }
        assert(out@ =~= after_url + license_text(*self));
        let ghost after_license = out@;
        out.append("💾 Download: ");
        out.append(format_size(self.download_size).as_str());
        out.append(" | Installed: ");
        out.append(format_size(self.installed_size).as_str());
        out.append("\n");
        assert(out@ =~= after_license + sizes_text(*self));
        push_list(&mut out, "\n📋 Dependencies (", &self.depends);
        push_list(&mut out, "\n📋 Optional Dependencies (", &self.optional_deps);
        assert(out@ =~= display_text(*self));
        out
    }

    /// Reads the `Key : Value` lines of a package manager's info output.
    /// For each known key the last line carrying it wins; list fields are
    /// split on white space and sizes read as `parse_size` does. Without a
    /// name there is no package.
    pub fn from_pacman_output(output: &str, source: PackageSource) -> (r: Option<Self>)
        ensures
            ({
                let lines = listed_names(output@);
                &&& field_value(lines, "Name"@).len() == 0 ==> r is None
                &&& field_value(lines, "Name"@).len() > 0 ==> (r matches Some(info) && {
                    &&& info.name@ == field_value(lines, "Name"@)
                    &&& info.version@ == field_value(lines, "Version"@)
                    &&& info.description@ == field_value(lines, "Description"@)
                    &&& info.url@ == field_value(lines, "URL"@)
                    &&& texts(info.licenses) == words(field_value(lines, "Licenses"@))
                    &&& texts(info.groups) == words(field_value(lines, "Groups"@))
                    &&& texts(info.provides) == words(field_value(lines, "Provides"@))
                    &&& texts(info.depends) == words(field_value(lines, "Depends On"@))
                    &&& texts(info.optional_deps) == words(field_value(lines, "Optional Deps"@))
                    &&& texts(info.conflicts) == words(field_value(lines, "Conflicts With"@))
                    &&& texts(info.replaces) == words(field_value(lines, "Replaces"@))
                    &&& info.download_size == size_in_bytes(field_value(lines, "Download Size"@))
                    &&& info.installed_size == size_in_bytes(field_value(lines, "Installed Size"@))
                    &&& info.packager@ == field_value(lines, "Packager"@)
                    &&& info.build_date@ == field_value(lines, "Build Date"@)
                    &&& info.install_reason is None
                    &&& info.source == source
                })
            }),
    {
        let lines = split_lines(output);
        let ghost ls = listed_names(output@);
        let mut entries: Vec<Option<(String, String)>> = Vec::new();
        let mut i: usize = 0;
        while i < lines.len()
            invariant
                i <= lines@.len() == ls.len(),
                forall|j: int| 0 <= j < lines@.len() ==> #[trigger] lines@[j]@ == ls[j],
                entries@.len() == i,
                forall|j: int|
                    0 <= j < i ==> match #[trigger] entries@[j] {
                        None => line_entry(ls[j]) is None,
                        Some(e) => line_entry(ls[j]) == Some((e.0@, e.1@)),
                    },
            decreases lines@.len() - i,
        {
            let e = entry_of(lines[i].as_str());
            entries.push(e);
            i = i + 1;
        }
        let name = value_for(&entries, "Name", Ghost(ls));
        if name.as_str().is_empty() {
            return None;
        }
        let licenses = split_words(value_for(&entries, "Licenses", Ghost(ls)).as_str());
        let groups = split_words(value_for(&entries, "Groups", Ghost(ls)).as_str());
        let provides = split_words(value_for(&entries, "Provides", Ghost(ls)).as_str());
        let depends = split_words(value_for(&entries, "Depends On", Ghost(ls)).as_str());
        let optional_deps = split_words(value_for(&entries, "Optional Deps", Ghost(ls)).as_str());
        let conflicts = split_words(value_for(&entries, "Conflicts With", Ghost(ls)).as_str());
        let replaces = split_words(value_for(&entries, "Replaces", Ghost(ls)).as_str());
        let info = PackageInfo {
            name,
            version: value_for(&entries, "Version", Ghost(ls)),
            description: value_for(&entries, "Description", Ghost(ls)),
            url: value_for(&entries, "URL", Ghost(ls)),
            licenses,
            groups,
            provides,
            depends,
            optional_deps,
            conflicts,
            replaces,
            download_size: parse_size(value_for(&entries, "Download Size", Ghost(ls)).as_str()),
            installed_size: parse_size(value_for(&entries, "Installed Size", Ghost(ls)).as_str()),
            packager: value_for(&entries, "Packager", Ghost(ls)),
            build_date: value_for(&entries, "Build Date", Ghost(ls)),
            install_reason: None,
            source,
        };
        proof {
            assert(texts(info.licenses) =~= words(field_value(ls, "Licenses"@)));
            assert(texts(info.groups) =~= words(field_value(ls, "Groups"@)));
            assert(texts(info.provides) =~= words(field_value(ls, "Provides"@)));
            assert(texts(info.depends) =~= words(field_value(ls, "Depends On"@)));
            assert(texts(info.optional_deps) =~= words(field_value(ls, "Optional Deps"@)));
            assert(texts(info.conflicts) =~= words(field_value(ls, "Conflicts With"@)));
            assert(texts(info.replaces) =~= words(field_value(ls, "Replaces"@)));
        }
        Some(info)
    }
}

} // verus!
