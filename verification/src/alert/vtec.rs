//! P-VTEC (Primary Valid Time Event Code) parsing.
//!
//! ```text
//! /O.NEW.KDLH.SV.W.0087.260727T0700Z-260727T0800Z/
//!  | |   |    |  | |    `- valid time range
//!  | |   |    |  | `------ event tracking number
//!  | |   |    |  `-------- significance (Warning / A watch / Y advisory / Statement)
//!  | |   |    `----------- phenomenon (TO tornado, SV thunderstorm, FF flash flood, ...)
//!  | |   `---------------- issuing office
//!  | `-------------------- action
//!  `---------------------- product class (Operational / Test / Experimental)
//! ```

use vstd::prelude::*;
#[allow(unused_imports)]
use vstd::string::StringExecFns;
#[allow(unused_imports)]
use crate::text::{
    bounded_value, decimal, is_digit, is_space, law_first_field_ends_at_the_separator,
    law_trimming_takes_the_ends_off, lemma_decimal_reads_back, lemma_split_fields, number,
    parse_unsigned, same, split, split_on, strip_end, strip_start, stripped, texts, trim, trimmed, chars_of,
};

verus! {

/// What a product does to the event it names.
#[derive(Debug, Clone, Copy, PartialEq, Eq, Structural)]
pub enum VtecAction {
    New,
    Con,
    Ext,
    Exa,
    Exb,
    Upg,
    Can,
    Exp,
    Cor,
    Rou,
}

/// Why a text is not a P-VTEC code.
#[derive(Debug, Clone, Copy, PartialEq, Eq, Structural)]
pub enum VtecError {
    /// Fewer than six fields; how many there were.
    FieldCount(usize),
    /// The product class is not one character.
    ProductClass,
    /// The office is empty.
    Office,
    /// The phenomenon is not two characters.
    Phenomenon,
    /// The significance is not one character.
    Significance,
    /// The event tracking number is not a 16-bit number.
    TrackingNumber,
    /// The action is unknown.
    Action,
}

impl VtecAction {
    /// The code of an action.
    pub open spec fn code(self) -> Seq<char> {
        match self {
            VtecAction::New => "NEW"@,
            VtecAction::Con => "CON"@,
            VtecAction::Ext => "EXT"@,
            VtecAction::Exa => "EXA"@,
            VtecAction::Exb => "EXB"@,
            VtecAction::Upg => "UPG"@,
            VtecAction::Can => "CAN"@,
            VtecAction::Exp => "EXP"@,
            VtecAction::Cor => "COR"@,
            VtecAction::Rou => "ROU"@,
        }
    }

    /// The action with a given code.
    pub open spec fn named(s: Seq<char>) -> Result<VtecAction, VtecError> {
        if s == "NEW"@ {
            Ok(VtecAction::New)
        } else if s == "CON"@ {
            Ok(VtecAction::Con)
        } else if s == "EXT"@ {
            Ok(VtecAction::Ext)
        } else if s == "EXA"@ {
            Ok(VtecAction::Exa)
        } else if s == "EXB"@ {
            Ok(VtecAction::Exb)
        } else if s == "UPG"@ {
            Ok(VtecAction::Upg)
        } else if s == "CAN"@ {
            Ok(VtecAction::Can)
        } else if s == "EXP"@ {
            Ok(VtecAction::Exp)
        } else if s == "COR"@ {
            Ok(VtecAction::Cor)
        } else if s == "ROU"@ {
            Ok(VtecAction::Rou)
        } else {
            Err(VtecError::Action)
        }
    }

    /// Reads an action code.
    pub fn parse(s: &str) -> (r: Result<VtecAction, VtecError>)
        ensures
            r == VtecAction::named(s@),
            r matches Ok(a) ==> a.code() == s@,
    {
        if same(s, "NEW") {
            Ok(VtecAction::New)
        } else if same(s, "CON") {
            Ok(VtecAction::Con)
        } else if same(s, "EXT") {
            Ok(VtecAction::Ext)
        } else if same(s, "EXA") {
            Ok(VtecAction::Exa)
        } else if same(s, "EXB") {
            Ok(VtecAction::Exb)
        } else if same(s, "UPG") {
            Ok(VtecAction::Upg)
        } else if same(s, "CAN") {
            Ok(VtecAction::Can)
        } else if same(s, "EXP") {
            Ok(VtecAction::Exp)
        } else if same(s, "COR") {
            Ok(VtecAction::Cor)
        } else if same(s, "ROU") {
            Ok(VtecAction::Rou)
        } else {
            Err(VtecError::Action)
        }
    }

    /// Whether this is the first product of an event.
    pub fn is_first_issuance(self) -> (r: bool)
        ensures
            r == (self is New),
    {
        matches!(self, VtecAction::New)
    }

    /// Whether the event ends here: it was cancelled, it expired, or a product of higher
    /// significance took its place.
    pub open spec fn ends_event(self) -> bool {
        self is Can || self is Exp || self is Upg
    }

    pub fn terminates_event(self) -> (r: bool)
        ensures
            r == self.ends_event(),
    {
        matches!(self, VtecAction::Can | VtecAction::Exp | VtecAction::Upg)
    }
}

/// One P-VTEC code.
#[derive(Debug, Clone, PartialEq, Eq)]
pub struct VtecCode {
    pub product_class: char,
    pub action: VtecAction,
    pub office: String,
    pub phenomenon: String,
    pub significance: char,
    pub etn: u16,
}

/// What a P-VTEC code says.
pub struct VtecFields {
    pub product_class: char,
    pub action: VtecAction,
    pub office: Seq<char>,
    pub phenomenon: Seq<char>,
    pub significance: char,
    pub etn: u16,
}

impl View for VtecCode {
    type V = VtecFields;

    open spec fn view(&self) -> VtecFields {
        VtecFields {
            product_class: self.product_class,
            action: self.action,
            office: self.office@,
            phenomenon: self.phenomenon@,
            significance: self.significance,
            etn: self.etn,
        }
    }
}

/// Whether a field is exactly one byte.
pub open spec fn one_byte(s: Seq<char>) -> bool {
    s.len() == 1 && (s[0] as u32) < 0x80
}

/// Whether a field is exactly two bytes in UTF-8.
pub open spec fn two_bytes(s: Seq<char>) -> bool {
    ||| s.len() == 2 && (s[0] as u32) < 0x80 && (s[1] as u32) < 0x80
    ||| s.len() == 1 && 0x80 <= (s[0] as u32) < 0x800
}

/// The dot-separated fields of a code, without the slashes and white space around them.
pub open spec fn vtec_fields(raw: Seq<char>) -> Seq<Seq<char>> {
    split_on(strip_end(strip_start(trim(raw), '/'), '/'), '.')
}

/// What a text says as a P-VTEC code.
pub open spec fn vtec_reading(raw: Seq<char>) -> Result<VtecFields, VtecError> {
    let f = vtec_fields(raw);
    if f.len() < 6 {
        Err(VtecError::FieldCount(f.len() as usize))
    } else if !one_byte(f[0]) {
        Err(VtecError::ProductClass)
    } else if f[2].len() == 0 {
        Err(VtecError::Office)
    } else if !two_bytes(f[3]) {
        Err(VtecError::Phenomenon)
    } else if !one_byte(f[4]) {
        Err(VtecError::Significance)
    } else {
        match bounded_value(f[5], u16::MAX as nat) {
            None => Err(VtecError::TrackingNumber),
            Some(etn) => match VtecAction::named(f[1]) {
                Err(e) => Err(e),
                Ok(action) => Ok(
                    VtecFields {
                        product_class: f[0][0],
                        action,
                        office: f[2],
                        phenomenon: f[3],
                        significance: f[4][0],
                        etn: etn as u16,
                    },
                ),
            },
        }
    }
}

fn single_char(s: &str) -> (r: Option<char>)
    ensures
        r is Some <==> one_byte(s@),
        r matches Some(c) ==> c == s@[0],
{
    let cs = chars_of(s);
    if cs.len() == 1 && (cs[0] as u32) < 0x80 {
        Some(cs[0])
    } else {
        None
    }
}

fn is_two_bytes(s: &str) -> (r: bool)
    ensures
        r == two_bytes(s@),
{
    let cs = chars_of(s);
    if cs.len() == 2 {
        (cs[0] as u32) < 0x80 && (cs[1] as u32) < 0x80
    } else if cs.len() == 1 {
        let u: u32 = cs[0] as u32;
        u >= 0x80 && u < 0x800
    } else {
        false
    }
}

/// The codes on the lines of one text, unreadable lines left out.
pub open spec fn line_codes(lines: Seq<Seq<char>>) -> Seq<VtecFields>
    decreases lines.len(),
{
    if lines.len() == 0 {
        Seq::empty()
    } else {
        let before = line_codes(lines.drop_last());
        match vtec_reading(lines.last()) {
            Ok(v) => before.push(v),
            Err(_) => before,
        }
    }
}

/// The codes in a list of texts, in order.
pub open spec fn all_codes(raws: Seq<Seq<char>>) -> Seq<VtecFields>
    decreases raws.len(),
{
    if raws.len() == 0 {
        Seq::empty()
    } else {
        all_codes(raws.drop_last()) + line_codes(split_on(raws.last(), '\n'))
    }
}

/// The readings of a list of codes.
pub open spec fn readings(codes: Seq<VtecCode>) -> Seq<VtecFields> {
    codes.map_values(|c: VtecCode| c@)
}

impl VtecFields {
    /// The allowlist key of a code, such as `SV.W`.
    pub open spec fn kind(self) -> Seq<char> {
        self.phenomenon + "."@ + seq![self.significance]
    }

    /// Whether two codes speak of the same event.
    pub open spec fn same_event(self, other: VtecFields) -> bool {
        self.office == other.office && self.phenomenon == other.phenomenon && self.significance
            == other.significance && self.etn == other.etn
    }

    /// The text that identifies an event, such as `KTLX.TO.W.12`.
    pub open spec fn key(self) -> Seq<char> {
        self.office + "."@ + self.phenomenon + "."@ + seq![self.significance] + "."@ + decimal(
            self.etn as nat,
        )
    }

    /// Whether no field holds the dot that separates fields.
    pub open spec fn dotless(self) -> bool {
        !self.office.contains('.') && !self.phenomenon.contains('.') && self.significance != '.'
    }
}

impl VtecCode {
    /// Reads one P-VTEC code.
    pub fn parse(raw: &str) -> (r: Result<VtecCode, VtecError>)
        ensures
            r is Ok <==> vtec_reading(raw@) is Ok,
            r matches Ok(v) ==> vtec_reading(raw@) == Ok::<VtecFields, VtecError>(v@),
            r matches Err(e) ==> vtec_reading(raw@) == Err::<VtecFields, VtecError>(e),
    {
        let inner = trimmed(raw);
        let body = stripped(inner.as_str(), '/');
        let fields = split(body.as_str(), '.');
        let ghost f = vtec_fields(raw@);
        assert(f == texts(fields@));
        assert(f.len() == fields@.len());
        assert(forall|i: int| 0 <= i < fields@.len() ==> f[i] == (#[trigger] fields@[i])@);
        if fields.len() < 6 {
            return Err(VtecError::FieldCount(fields.len()));
        }
        let product_class: char = match single_char(fields[0].as_str()) {
            Some(c) => c,
            None => {
                return Err(VtecError::ProductClass);
            },
        };
        if fields[2].as_str().is_empty() {
            return Err(VtecError::Office);
        }
        if !is_two_bytes(fields[3].as_str()) {
            return Err(VtecError::Phenomenon);
        }
        let significance: char = match single_char(fields[4].as_str()) {
            Some(c) => c,
            None => {
                return Err(VtecError::Significance);
            },
        };
        let etn: u16 = match parse_unsigned(fields[5].as_str(), 65535) {
            Some(n) => n as u16,
            None => {
                return Err(VtecError::TrackingNumber);
            },
        };
        match VtecAction::parse(fields[1].as_str()) {
            Err(e) => Err(e),
            Ok(action) => Ok(
                VtecCode {
                    product_class,
                    action,
                    office: fields[2].clone(),
                    phenomenon: fields[3].clone(),
                    significance,
                    etn,
                },
            ),
        }
    }

    /// The lookup key of the allowlist, such as `"SV.W"`.
    pub fn phenomenon_significance(&self) -> (r: String)
        ensures
            r@ == self@.kind(),
    {
        let mut out = self.phenomenon.clone();
        out.append(".");
        let ghost before = out@;
        out.push(self.significance);
        assert(out@ =~= before + seq![self.significance]);
        out
    }

    /// Whether this is an operational product, neither a test nor an experiment.
    pub fn is_operational(&self) -> (r: bool)
        ensures
            r == (self@.product_class == 'O'),
    {
        self.product_class == 'O'
    }

    /// What identifies the event across repeated polls. The significance belongs to it: a
    /// watch and a warning from one office may share a tracking number.
    pub fn event_key(&self) -> (r: (String, String, char, u16))
        ensures
            r.0@ == self@.office,
            r.1@ == self@.phenomenon,
            r.2 == self@.significance,
            r.3 == self@.etn,
    {
        (self.office.clone(), self.phenomenon.clone(), self.significance, self.etn)
    }

    /// The event key as one text.
    pub fn key_text(&self) -> (r: String)
        ensures
            r@ == self@.key(),
    {
        let (office, phenomenon, significance, etn) = self.event_key();
        let mut out = office;
        out.append(".");
        out.append(phenomenon.as_str());
        out.append(".");
        let ghost before = out@;
        out.push(significance);
        assert(out@ =~= before + seq![significance]);
        out.append(".");
        let n = number(etn as u64);
        out.append(n.as_str());
        out
    }

    /// A product may carry several codes, and hydrologic codes among them, which are not
    /// P-VTEC and are left out.
    pub fn parse_all(raws: &Vec<String>) -> (r: Vec<VtecCode>)
        ensures
            readings(r@) == all_codes(texts(raws@)),
    {
        let mut out: Vec<VtecCode> = Vec::new();
        let mut i: usize = 0;
        assert(readings(out@) =~= all_codes(texts(raws@).take(0)));
        while i < raws.len()
            invariant
                i <= raws@.len(),
                readings(out@) == all_codes(texts(raws@).take(i as int)),
            decreases raws@.len() - i,
        {
            let lines = split(raws[i].as_str(), '\n');
            let ghost base = readings(out@);
            let ghost all = texts(lines@);
            let mut j: usize = 0;
            assert(readings(out@) =~= base + line_codes(all.take(0)));
            while j < lines.len()
                invariant
                    j <= lines@.len(),
                    all == texts(lines@),
                    readings(out@) == base + line_codes(all.take(j as int)),
                decreases lines@.len() - j,
            {
                let ghost before = out@;
                assert(all.take(j + 1).drop_last() =~= all.take(j as int));
                assert(all.take(j + 1).last() == lines@[j as int]@);
                match VtecCode::parse(lines[j].as_str()) {
                    Ok(v) => {
                        let ghost val = v@;
                        out.push(v);
                        assert(readings(out@) =~= readings(before).push(val));
                        assert(readings(out@) =~= base + line_codes(all.take(j + 1)));
                    },
                    Err(_) => {},
                }
                j += 1;
            }
            assert(all.take(j as int) =~= all);
            assert(texts(raws@).take(i + 1).drop_last() =~= texts(raws@).take(i as int));
            assert(texts(raws@).take(i + 1).last() == raws@[i as int]@);
            i += 1;
        }
        assert(texts(raws@).take(i as int) =~= texts(raws@));
        out
    }
}

/// A code that was read holds no dot inside a field.
proof fn lemma_reading_is_dotless(raw: Seq<char>)
    requires
        vtec_reading(raw) is Ok,
    ensures
        vtec_reading(raw)->Ok_0.dotless(),
{
    let f = vtec_fields(raw);
    lemma_split_fields(strip_end(strip_start(trim(raw), '/'), '/'), '.');
    assert(!f[2].contains('.'));
    assert(!f[3].contains('.'));
    assert(!f[4].contains('.'));
    assert(f[4][0] != '.') by {
        if f[4][0] == '.' {
            assert(f[4].contains('.'));
        }
    }
}

/// Two texts without a dot, each followed by a dot, begin alike only if they are equal.
proof fn lemma_field_is_determined(a: Seq<char>, x: Seq<char>, b: Seq<char>, y: Seq<char>)
    requires
        !a.contains('.'),
        !b.contains('.'),
        a + "."@ + x == b + "."@ + y,
    ensures
        a == b,
        x == y,
{
    reveal_strlit(".");
    let l = a + "."@ + x;
    let r = b + "."@ + y;
    if a.len() < b.len() {
        assert(l[a.len() as int] == '.');
        assert(r[a.len() as int] == b[a.len() as int]);
        assert(b.contains('.'));
    }
    if b.len() < a.len() {
        assert(r[b.len() as int] == '.');
        assert(l[b.len() as int] == a[b.len() as int]);
        assert(a.contains('.'));
    }
    assert(a =~= l.take(a.len() as int));
    assert(b =~= r.take(b.len() as int));
    assert(x =~= l.skip(a.len() as int + 1));
    assert(y =~= r.skip(b.len() as int + 1));
}

/// Two codes that can be read have one key exactly when they speak of the same event: the
/// action and the product class play no part, and office, phenomenon, significance and
/// tracking number each do.
pub proof fn law_key_identifies_event(first: Seq<char>, second: Seq<char>)
    requires
        vtec_reading(first) is Ok,
        vtec_reading(second) is Ok,
    ensures
        vtec_reading(first)->Ok_0.key() == vtec_reading(second)->Ok_0.key() <==> vtec_reading(
            first,
        )->Ok_0.same_event(vtec_reading(second)->Ok_0),
{
    let a = vtec_reading(first)->Ok_0;
    let b = vtec_reading(second)->Ok_0;
    lemma_reading_is_dotless(first);
    lemma_reading_is_dotless(second);
    if a.key() == b.key() {
        let da = decimal(a.etn as nat);
        let db = decimal(b.etn as nat);
        let sa = seq![a.significance];
        let sb = seq![b.significance];
        let ta = sa + "."@ + da;
        let tb = sb + "."@ + db;
        assert(!sa.contains('.'));
        assert(!sb.contains('.'));
        assert(a.key() =~= a.office + "."@ + (a.phenomenon + "."@ + ta));
        assert(b.key() =~= b.office + "."@ + (b.phenomenon + "."@ + tb));
        lemma_field_is_determined(
            a.office,
            a.phenomenon + "."@ + ta,
            b.office,
            b.phenomenon + "."@ + tb,
        );
        lemma_field_is_determined(a.phenomenon, ta, b.phenomenon, tb);
        lemma_field_is_determined(sa, da, sb, db);
        assert(sa[0] == sb[0]);
        lemma_decimal_reads_back(a.etn as nat);
        lemma_decimal_reads_back(b.etn as nat);
    }
}

/// Each action is written by its own three letters and read back from them, and an event ends
/// with those that cancel it, let it expire or raise it to another, and with no other.
pub proof fn law_actions_read_back(a: VtecAction)
    ensures
        VtecAction::named(a.code()) == Ok::<VtecAction, VtecError>(a),
        a is New <==> a.code() == "NEW"@,
        a is Can <==> a.code() == "CAN"@,
        a is Exp <==> a.code() == "EXP"@,
        a is Upg <==> a.code() == "UPG"@,
        a is Con <==> a.code() == "CON"@,
        a is Cor <==> a.code() == "COR"@,
        a is Ext <==> a.code() == "EXT"@,
        a is Exa <==> a.code() == "EXA"@,
        a is Exb <==> a.code() == "EXB"@,
        a is Rou <==> a.code() == "ROU"@,
        a.ends_event() <==> a.code() == "CAN"@ || a.code() == "EXP"@ || a.code() == "UPG"@,
        a.code().len() == 3,
        !a.code().contains('.'),
{
    reveal_strlit("NEW");
    reveal_strlit("CON");
    reveal_strlit("EXT");
    reveal_strlit("EXA");
    reveal_strlit("EXB");
    reveal_strlit("UPG");
    reveal_strlit("CAN");
    reveal_strlit("EXP");
    reveal_strlit("COR");
    reveal_strlit("ROU");
    let s = a.code();
    assert(s.len() == 3);
    assert(s[0] != '.' && s[1] != '.' && s[2] != '.');
    assert("NEW"@[0] == 'N');
    assert("CON"@[0] == 'C' && "CON"@[1] == 'O' && "CON"@[2] == 'N');
    assert("COR"@[0] == 'C' && "COR"@[1] == 'O' && "COR"@[2] == 'R');
    assert("CAN"@[0] == 'C' && "CAN"@[1] == 'A');
    assert("EXT"@[0] == 'E' && "EXT"@[2] == 'T');
    assert("EXA"@[0] == 'E' && "EXA"@[2] == 'A');
    assert("EXB"@[0] == 'E' && "EXB"@[2] == 'B');
    assert("EXP"@[0] == 'E' && "EXP"@[2] == 'P');
    assert("UPG"@[0] == 'U');
    assert("ROU"@[0] == 'R');
}

/// The fields of a code, each followed by a dot, and what comes after them.
pub open spec fn vtec_text(v: VtecFields, tail: Seq<char>) -> Seq<char> {
    seq![v.product_class] + seq!['.'] + (v.action.code() + seq!['.'] + (v.office + seq!['.'] + (
    v.phenomenon + seq!['.'] + (seq![v.significance] + seq!['.'] + (decimal(v.etn as nat) + seq![
        '.',
    ] + tail)))))
}

/// A code reads back as it is written: class, action, office, phenomenon, significance and
/// tracking number in this order, between slashes and whatever white space stands around them.
/// The time range after them plays no part.
pub proof fn law_code_reads_back(
    v: VtecFields,
    tail: Seq<char>,
    before: Seq<char>,
    after: Seq<char>,
)
    requires
        v.dotless(),
        (v.product_class as u32) < 0x80,
        v.product_class != '.' && v.product_class != '/',
        v.office.len() > 0,
        v.phenomenon.len() == 2 && (v.phenomenon[0] as u32) < 0x80 && (v.phenomenon[1] as u32)
            < 0x80,
        (v.significance as u32) < 0x80,
        tail.len() > 0 && tail.last() != '/',
        forall|i: int| 0 <= i < before.len() ==> is_space(#[trigger] before[i]),
        forall|i: int| 0 <= i < after.len() ==> is_space(#[trigger] after[i]),
    ensures
        vtec_reading(before + (seq!['/'] + vtec_text(v, tail) + seq!['/']) + after) == Ok::<
            VtecFields,
            VtecError,
        >(v),
{
    let body = vtec_text(v, tail);
    let raw = seq!['/'] + body + seq!['/'];
    assert(raw[0] == '/' && raw.last() == '/');
    assert(!is_space('/'));
    law_trimming_takes_the_ends_off(before, raw, after);
    assert(body[0] == v.product_class);
    assert(body.last() == tail.last());
    let open = body + seq!['/'];
    reveal_with_fuel(strip_start, 2);
    reveal_with_fuel(strip_end, 2);
    assert(raw.drop_first() =~= open);
    assert(open[0] == body[0]);
    assert(strip_start(raw, '/') =~= open);
    assert(open.drop_last() =~= body);
    assert(strip_end(open, '/') =~= body);
    law_actions_read_back(v.action);
    lemma_decimal_reads_back(v.etn as nat);
    let d = decimal(v.etn as nat);
    assert(!d.contains('.')) by {
        if d.contains('.') {
            let i = choose|i: int| 0 <= i < d.len() && d[i] == '.';
            assert(is_digit(d[i]));
        }
    }
    let r5 = d + seq!['.'] + tail;
    let r4 = seq![v.significance] + seq!['.'] + r5;
    let r3 = v.phenomenon + seq!['.'] + r4;
    let r2 = v.office + seq!['.'] + r3;
    let r1 = v.action.code() + seq!['.'] + r2;
    law_first_field_ends_at_the_separator(seq![v.product_class], '.', r1);
    law_first_field_ends_at_the_separator(v.action.code(), '.', r2);
    law_first_field_ends_at_the_separator(v.office, '.', r3);
    law_first_field_ends_at_the_separator(v.phenomenon, '.', r4);
    law_first_field_ends_at_the_separator(seq![v.significance], '.', r5);
    law_first_field_ends_at_the_separator(d, '.', tail);
    let f = split_on(body, '.');
    lemma_split_fields(tail, '.');
    assert(f =~= seq![seq![v.product_class], v.action.code(), v.office, v.phenomenon, seq![
        v.significance,
    ], d] + split_on(tail, '.'));
    assert(f[0] == seq![v.product_class]);
    assert(f[1] == v.action.code());
    assert(f[2] == v.office);
    assert(f[3] == v.phenomenon);
    assert(f[4] == seq![v.significance]);
    assert(f[5] == d);
}

proof fn lemma_line_codes_join(a: Seq<Seq<char>>, b: Seq<Seq<char>>)
    ensures
        line_codes(a + b) == line_codes(a) + line_codes(b),
    decreases b.len(),
{
    if b.len() == 0 {
        assert(a + b =~= a);
        assert(line_codes(a) + line_codes(b) =~= line_codes(a));
    } else {
        lemma_line_codes_join(a, b.drop_last());
        assert((a + b).drop_last() =~= a + b.drop_last());
        assert((a + b).last() == b.last());
        assert(line_codes(a + b) =~= line_codes(a) + line_codes(b));
    }
}

/// The codes of two lists of texts, one after the other, are those of the first and then those of
/// the second; so are the codes of two lines of one text. A line that is no code is left out, and
/// keeps no other from being read.
pub proof fn law_every_readable_code_is_taken(
    a: Seq<Seq<char>>,
    b: Seq<Seq<char>>,
    line: Seq<char>,
    rest: Seq<char>,
)
    requires
        !line.contains('\n'),
    ensures
        all_codes(a + b) == all_codes(a) + all_codes(b),
        all_codes(seq![line + seq!['\n'] + rest]) == all_codes(seq![line]) + all_codes(seq![rest]),
        all_codes(seq![line]) == (match vtec_reading(line) {
            Ok(v) => seq![v],
            Err(_) => Seq::empty(),
        }),
    decreases b.len(),
{
    reveal_with_fuel(all_codes, 2);
    reveal_with_fuel(line_codes, 2);
    law_first_field_ends_at_the_separator(line, '\n', rest);
    let whole = line + seq!['\n'] + rest;
    lemma_line_codes_join(seq![line], split_on(rest, '\n'));
    assert(seq![whole].drop_last() =~= Seq::<Seq<char>>::empty());
    assert(seq![line].drop_last() =~= Seq::<Seq<char>>::empty());
    assert(seq![rest].drop_last() =~= Seq::<Seq<char>>::empty());
    assert(all_codes(seq![whole]) =~= line_codes(split_on(whole, '\n')));
    assert(all_codes(seq![line]) =~= line_codes(seq![line]));
    assert(all_codes(seq![rest]) =~= line_codes(split_on(rest, '\n')));
    match vtec_reading(line) {
        Ok(v) => {
            assert(line_codes(seq![line]) =~= seq![v]);
        },
        Err(_) => {
            assert(line_codes(seq![line]) =~= Seq::<VtecFields>::empty());
        },
    }
    if b.len() == 0 {
        assert(a + b =~= a);
        assert(all_codes(a) + all_codes(b) =~= all_codes(a));
    } else {
        law_every_readable_code_is_taken(a, b.drop_last(), line, rest);
        assert((a + b).drop_last() =~= a + b.drop_last());
        assert((a + b).last() == b.last());
        assert(all_codes(a + b) =~= all_codes(a) + all_codes(b));
    }
}

/// A kind is told by the phenomenon and then the significance: the text before the dot is the
/// one, the letter after it the other.
pub proof fn law_kind_names_phenomenon_then_significance(v: VtecFields)
    requires
        v.dotless(),
    ensures
        split_on(v.kind(), '.') == seq![v.phenomenon, seq![v.significance]],
        split_on(v.key(), '.') == seq![
            v.office,
            v.phenomenon,
            seq![v.significance],
            decimal(v.etn as nat),
        ],
{
    reveal_strlit(".");
    assert("."@ =~= seq!['.']);
    lemma_decimal_reads_back(v.etn as nat);
    let d = decimal(v.etn as nat);
    assert(!d.contains('.')) by {
        if d.contains('.') {
            let i = choose|i: int| 0 <= i < d.len() && d[i] == '.';
            assert(is_digit(d[i]));
        }
    }
    let sig = seq![v.significance];
    let r2 = sig + seq!['.'] + d;
    let r1 = v.phenomenon + seq!['.'] + r2;
    law_first_field_ends_at_the_separator(sig, '.', d);
    law_first_field_ends_at_the_separator(d, '.', d);
    law_first_field_ends_at_the_separator(v.phenomenon, '.', r2);
    law_first_field_ends_at_the_separator(v.office, '.', r1);
    law_first_field_ends_at_the_separator(v.phenomenon, '.', sig);
    assert(v.kind() =~= v.phenomenon + seq!['.'] + sig);
    assert(v.key() =~= v.office + seq!['.'] + r1);
    assert(split_on(v.kind(), '.') =~= seq![v.phenomenon, sig]);
    assert(split_on(v.key(), '.') =~= seq![v.office, v.phenomenon, sig, d]);
}

/// A code is read field by field: the first is its class, then its action, its office, its
/// phenomenon, its significance and its number. It is refused exactly where there are fewer than
/// six, or one of them is not what it should be.
pub proof fn law_code_is_read_field_by_field(raw: Seq<char>)
    requires
        vtec_fields(raw).len() <= usize::MAX,
    ensures
        ({
            let f = vtec_fields(raw);
            let said = vtec_reading(raw);
            &&& f.len() < 6 <==> said is Err && said->Err_0 is FieldCount
            &&& said matches Ok(v) ==> {
                &&& f[0] == seq![v.product_class]
                &&& f[1] == v.action.code()
                &&& f[2] == v.office
                &&& f[3] == v.phenomenon
                &&& f[4] == seq![v.significance]
                &&& bounded_value(f[5], 65_535) == Some(v.etn as nat)
            }
            &&& f.len() >= 6 && (f[0].len() != 1 || f[0][0] as u32 >= 0x80) ==> said == Err::<
                VtecFields,
                VtecError,
            >(VtecError::ProductClass)
            &&& said is Ok ==> f[2].len() > 0 && f[3].len() <= 2
            &&& said matches Err(VtecError::Office) ==> f[2].len() == 0
            &&& said matches Err(VtecError::Phenomenon) ==> !(f[3].len() == 2 && (f[3][0] as u32)
                < 0x80 && (f[3][1] as u32) < 0x80)
            &&& said matches Err(VtecError::Significance) ==> f[4].len() != 1 || f[4][0] as u32
                >= 0x80
            &&& said matches Err(VtecError::TrackingNumber) ==> bounded_value(f[5], 65_535) is None
            &&& said matches Err(VtecError::Action) ==> forall|a: VtecAction|
                #[trigger] a.code() != f[1]
        }),
{
    let f = vtec_fields(raw);
    let said = vtec_reading(raw);
    if let Ok(v) = said {
        assert(f[0] =~= seq![v.product_class]);
        assert(f[4] =~= seq![v.significance]);
    }
    assert forall|a: VtecAction| said matches Err(VtecError::Action) implies #[trigger] a.code()
        != f[1] by {
        law_actions_read_back(a);
    }
}

} // verus!
