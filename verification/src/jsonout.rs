use vstd::prelude::*;

use vstd::string::StringExecFns;
use vstd::string::StrSliceExecFns;

use crate::models::{Configuration, ConfigurationV, ResourcesV, ServiceV, UserProvidedConfig,
    UserProvidedConfigV};
use crate::models::opt_str_view;
use crate::registry::{ServiceRecord, ServiceRecordV};

verus! {

/// The decimal digit character of `d`.
pub open spec fn digit_char(d: int) -> char {
    ((48 + d) as u8) as char
}

/// The lower-case hexadecimal digit character of `d`.
pub open spec fn hex_char(d: int) -> char {
    if d < 10 {
        ((48 + d) as u8) as char
    } else {
        ((87 + d) as u8) as char
    }
}

/// The decimal digits of a non-negative number.
pub open spec fn dec_digits(n: int) -> Seq<char>
    decreases n,
{
    if n < 10 {
        seq![digit_char(n)]
    } else {
        dec_digits(n / 10).push(digit_char(n % 10))
    }
}

/// How one character appears inside a JSON string literal.
pub open spec fn json_escape(c: char) -> Seq<char> {
    if c == '"' {
        seq!['\\', '"']
    } else if c == '\\' {
        seq!['\\', '\\']
    } else if c == '\u{8}' {
        seq!['\\', 'b']
    } else if c == '\u{c}' {
        seq!['\\', 'f']
    } else if c == '\n' {
        seq!['\\', 'n']
    } else if c == '\r' {
        seq!['\\', 'r']
    } else if c == '\t' {
        seq!['\\', 't']
    } else if (c as u32) < 32 {
        seq!['\\', 'u', '0', '0', hex_char((c as u32 / 16) as int), hex_char((c as u32 % 16) as int)]
    } else {
        seq![c]
    }
}

pub open spec fn json_escaped(t: Seq<char>) -> Seq<char>
    decreases t.len(),
{
    if t.len() == 0 {
        Seq::empty()
    } else {
        json_escape(t[0]) + json_escaped(t.drop_first())
    }
}

/// A JSON string literal.
pub open spec fn json_str(t: Seq<char>) -> Seq<char> {
    seq!['"'] + json_escaped(t) + seq!['"']
}

pub open spec fn json_opt_str(o: Option<Seq<char>>) -> Seq<char> {
    match o {
        None => "null"@,
        Some(t) => json_str(t),
    }
}

pub open spec fn json_opt_u16(o: Option<u16>) -> Seq<char> {
    match o {
        None => "null"@,
        Some(v) => dec_digits(v as int),
    }
}

pub open spec fn json_bool(b: bool) -> Seq<char> {
    if b {
        "true"@
    } else {
        "false"@
    }
}

/// The overlay, rendered with every field, absent ones as null.
#[verifier::opaque]
pub open spec fn json_of_upc(u: UserProvidedConfigV) -> Seq<char> {
    "{\"port\":"@ + json_opt_u16(u.port) + ",\"replicas\":"@ + json_opt_u16(u.replicas)
        + ",\"cloud\":"@ + json_opt_str(u.cloud) + ",\"workdir\":"@ + json_opt_str(u.workdir)
        + ",\"data\":"@ + json_opt_str(u.data) + ",\"disk_size\":"@ + json_opt_u16(u.disk_size)
        + ",\"cpu\":"@ + json_opt_str(u.cpu) + ",\"memory\":"@ + json_opt_str(u.memory)
        + ",\"accelerators\":"@ + json_opt_str(u.accelerators) + ",\"setup\":"@ + json_opt_str(
        u.setup,
    ) + ",\"run\":"@ + json_opt_str(u.run) + "}"@
}

pub open spec fn json_of_opt_upc(o: Option<UserProvidedConfigV>) -> Seq<char> {
    match o {
        None => "null"@,
        Some(u) => json_of_upc(u),
    }
}

#[verifier::opaque]
pub open spec fn json_of_service(s: ServiceV) -> Seq<char> {
    "{\"readiness_probe\":"@ + json_str(s.readiness_probe) + ",\"replicas\":"@ + dec_digits(
        s.replicas as int,
    ) + "}"@
}

/// The resources section; an absent accelerator request is left out of the
/// rendered text rather than shown as null.
#[verifier::opaque]
pub open spec fn json_of_resources(r: ResourcesV) -> Seq<char> {
    "{\"ports\":"@ + dec_digits(r.ports as int) + ",\"cloud\":"@ + json_str(r.cloud)
        + ",\"cpus\":"@ + json_str(r.cpus) + ",\"memory\":"@ + json_str(r.memory)
        + ",\"disk_size\":"@ + dec_digits(r.disk_size as int) + (match r.accelerators {
        Some(a) => ",\"accelerators\":"@ + json_str(a),
        None => Seq::<char>::empty(),
    }) + "}"@
}

#[verifier::opaque]
pub open spec fn json_of_config(c: ConfigurationV) -> Seq<char> {
    "{\"service\":"@ + json_of_service(c.service) + ",\"resources\":"@ + json_of_resources(
        c.resources,
    ) + ",\"workdir\":"@ + json_str(c.workdir) + ",\"setup\":"@ + json_str(c.setup) + ",\"run\":"@
        + json_str(c.run) + "}"@
}

/// The status snapshot of one record.  The pretty form puts each top-level
/// field on its own indented line; nested values stay compact.
#[verifier::opaque]
pub open spec fn json_of_record(r: ServiceRecordV, pretty: bool) -> Seq<char> {
    (if pretty {
        "{\n  "@
    } else {
        "{"@
    }) + "\"data\":"@ + json_of_opt_upc(r.data) + (if pretty {
        ",\n  "@
    } else {
        ","@
    }) + "\"template\":"@ + json_of_config(r.template) + (if pretty {
        ",\n  "@
    } else {
        ","@
    }) + "\"filepath\":"@ + json_opt_str(r.filepath) + (if pretty {
        ",\n  "@
    } else {
        ","@
    }) + "\"url\":"@ + json_opt_str(r.url) + (if pretty {
        ",\n  "@
    } else {
        ","@
    }) + "\"up\":"@ + json_bool(r.up) + (if pretty {
        "\n}"@
    } else {
        "}"@
    })
}

fn push_digits(s: &mut String, v: u16)
    ensures
        final(s)@ == old(s)@ + dec_digits(v as int),
    decreases v,
{
    if v >= 10 {
        push_digits(s, v / 10);
    }
    let c = ((48 + (v % 10)) as u8) as char;
    s.push(c);
    proof {
        if v >= 10 {
            assert(s@ =~= old(s)@ + dec_digits(v as int));
        } else {
            assert(s@ =~= old(s)@ + dec_digits(v as int));
        }
    }
}

fn push_hex_digit(s: &mut String, d: u32)
    requires
        d < 16,
    ensures
        final(s)@ == old(s)@ + seq![hex_char(d as int)],
{
    let c = if d < 10 {
        ((48 + d) as u8) as char
    } else {
        ((87 + d) as u8) as char
    };
    s.push(c);
    proof {
        assert(s@ =~= old(s)@ + seq![hex_char(d as int)]);
    }
}

fn push_escaped(s: &mut String, c: char)
    ensures
        final(s)@ == old(s)@ + json_escape(c),
{
    if c == '"' {
        s.push('\\');
        s.push('"');
        proof {
            assert(s@ =~= old(s)@ + json_escape(c));
        }
    } else if c == '\\' {
        s.push('\\');
        s.push('\\');
        proof {
            assert(s@ =~= old(s)@ + json_escape(c));
        }
    } else if c == '\u{8}' {
        s.push('\\');
        s.push('b');
        proof {
            assert(s@ =~= old(s)@ + json_escape(c));
        }
    } else if c == '\u{c}' {
        s.push('\\');
        s.push('f');
        proof {
            assert(s@ =~= old(s)@ + json_escape(c));
        }
    } else if c == '\n' {
        s.push('\\');
        s.push('n');
        proof {
            assert(s@ =~= old(s)@ + json_escape(c));
        }
    } else if c == '\r' {
        s.push('\\');
        s.push('r');
        proof {
            assert(s@ =~= old(s)@ + json_escape(c));
        }
    } else if c == '\t' {
        s.push('\\');
        s.push('t');
        proof {
            assert(s@ =~= old(s)@ + json_escape(c));
        }
    } else {
        let u = c as u32;
        if u < 32 {
            s.push('\\');
            s.push('u');
            s.push('0');
            s.push('0');
            push_hex_digit(s, u / 16);
            push_hex_digit(s, u % 16);
            proof {
                assert(s@ =~= old(s)@ + json_escape(c));
            }
        } else {
            s.push(c);
            proof {
                assert(s@ =~= old(s)@ + json_escape(c));
            }
        }
    }
}

proof fn lemma_json_escaped_push(t: Seq<char>, c: char)
    ensures
        json_escaped(t.push(c)) == json_escaped(t) + json_escape(c),
    decreases t.len(),
{
    if t.len() == 0 {
        assert(t.push(c)[0] == c);
        assert(t.push(c).drop_first() =~= Seq::<char>::empty());
        assert(json_escaped(t.push(c)) == json_escape(c) + json_escaped(Seq::<char>::empty()));
        assert(json_escaped(t.push(c)) =~= json_escaped(t) + json_escape(c));
    } else {
        assert(t.push(c)[0] == t[0]);
        assert(t.push(c).drop_first() =~= t.drop_first().push(c));
        lemma_json_escaped_push(t.drop_first(), c);
        assert(json_escaped(t.push(c)) == json_escape(t[0]) + json_escaped(
            t.drop_first().push(c),
        ));
        assert(json_escaped(t.push(c)) =~= json_escaped(t) + json_escape(c));
    }
}

fn push_json_string(s: &mut String, t: &String)
    ensures
        final(s)@ == old(s)@ + json_str(t@),
{
    s.push('"');
    let ghost base = s@;
    let n = t.as_str().unicode_len();
    let mut j: usize = 0;
    proof {
        assert(t@.take(0) =~= Seq::<char>::empty());
        assert(base + json_escaped(t@.take(0)) =~= base);
    }
    while j < n
        invariant
            n == t@.len(),
            j <= n,
            base == old(s)@.push('"'),
            s@ == base + json_escaped(t@.take(j as int)),
        decreases n - j,
    {
        let c = t.as_str().get_char(j);
        push_escaped(s, c);
        proof {
            lemma_json_escaped_push(t@.take(j as int), t@[j as int]);
            assert(t@.take(j as int + 1) =~= t@.take(j as int).push(t@[j as int]));
            assert(s@ =~= base + json_escaped(t@.take(j as int + 1)));
        }
        j = j + 1;
    }
    s.push('"');
    proof {
        assert(t@.take(n as int) =~= t@);
        assert(s@ =~= old(s)@ + json_str(t@));
    }
}

fn push_json_opt_str(s: &mut String, o: &Option<String>)
    ensures
        final(s)@ == old(s)@ + json_opt_str(opt_str_view(*o)),
{
    match o {
        None => {
            s.append("null");
        },
        Some(t) => {
            push_json_string(s, t);
        },
    }
}

fn push_json_opt_u16(s: &mut String, o: &Option<u16>)
    ensures
        final(s)@ == old(s)@ + json_opt_u16(*o),
{
    match o {
        None => {
            s.append("null");
        },
        Some(v) => {
            push_digits(s, *v);
        },
    }
}

fn push_json_bool(s: &mut String, b: bool)
    ensures
        final(s)@ == old(s)@ + json_bool(b),
{
    if b {
        s.append("true");
    } else {
        s.append("false");
    }
}

#[verifier::rlimit(100)]
fn push_json_upc(s: &mut String, u: &UserProvidedConfig)
    ensures
        final(s)@ == old(s)@ + json_of_upc(u@),
{
    let ghost o0 = s@;
    s.append("{\"port\":");
    push_json_opt_u16(s, &u.port);
    proof {
        assert(s@ =~= o0 + ("{\"port\":"@ + json_opt_u16(u@.port)));
    }
    s.append(",\"replicas\":");
    push_json_opt_u16(s, &u.replicas);
    proof {
        assert(s@ =~= o0 + ("{\"port\":"@ + json_opt_u16(u@.port) + ",\"replicas\":"@
            + json_opt_u16(u@.replicas)));
    }
    s.append(",\"cloud\":");
    push_json_opt_str(s, &u.cloud);
    proof {
        assert(s@ =~= o0 + ("{\"port\":"@ + json_opt_u16(u@.port) + ",\"replicas\":"@
            + json_opt_u16(u@.replicas) + ",\"cloud\":"@ + json_opt_str(u@.cloud)));
    }
    s.append(",\"workdir\":");
    push_json_opt_str(s, &u.workdir);
    proof {
        assert(s@ =~= o0 + ("{\"port\":"@ + json_opt_u16(u@.port) + ",\"replicas\":"@
            + json_opt_u16(u@.replicas) + ",\"cloud\":"@ + json_opt_str(u@.cloud)
            + ",\"workdir\":"@ + json_opt_str(u@.workdir)));
    }
    s.append(",\"data\":");
    push_json_opt_str(s, &u.data);
    proof {
        assert(s@ =~= o0 + ("{\"port\":"@ + json_opt_u16(u@.port) + ",\"replicas\":"@
            + json_opt_u16(u@.replicas) + ",\"cloud\":"@ + json_opt_str(u@.cloud)
            + ",\"workdir\":"@ + json_opt_str(u@.workdir) + ",\"data\":"@ + json_opt_str(
            u@.data,
        )));
    }
    s.append(",\"disk_size\":");
    push_json_opt_u16(s, &u.disk_size);
    proof {
        assert(s@ =~= o0 + ("{\"port\":"@ + json_opt_u16(u@.port) + ",\"replicas\":"@
            + json_opt_u16(u@.replicas) + ",\"cloud\":"@ + json_opt_str(u@.cloud)
            + ",\"workdir\":"@ + json_opt_str(u@.workdir) + ",\"data\":"@ + json_opt_str(
            u@.data,
        ) + ",\"disk_size\":"@ + json_opt_u16(u@.disk_size)));
    }
    s.append(",\"cpu\":");
    push_json_opt_str(s, &u.cpu);
    proof {
        assert(s@ =~= o0 + ("{\"port\":"@ + json_opt_u16(u@.port) + ",\"replicas\":"@
            + json_opt_u16(u@.replicas) + ",\"cloud\":"@ + json_opt_str(u@.cloud)
            + ",\"workdir\":"@ + json_opt_str(u@.workdir) + ",\"data\":"@ + json_opt_str(
            u@.data,
        ) + ",\"disk_size\":"@ + json_opt_u16(u@.disk_size) + ",\"cpu\":"@ + json_opt_str(
            u@.cpu,
        )));
    }
    s.append(",\"memory\":");
    push_json_opt_str(s, &u.memory);
    proof {
        assert(s@ =~= o0 + ("{\"port\":"@ + json_opt_u16(u@.port) + ",\"replicas\":"@
            + json_opt_u16(u@.replicas) + ",\"cloud\":"@ + json_opt_str(u@.cloud)
            + ",\"workdir\":"@ + json_opt_str(u@.workdir) + ",\"data\":"@ + json_opt_str(
            u@.data,
        ) + ",\"disk_size\":"@ + json_opt_u16(u@.disk_size) + ",\"cpu\":"@ + json_opt_str(
            u@.cpu,
        ) + ",\"memory\":"@ + json_opt_str(u@.memory)));
    }
    s.append(",\"accelerators\":");
    push_json_opt_str(s, &u.accelerators);
    proof {
        assert(s@ =~= o0 + ("{\"port\":"@ + json_opt_u16(u@.port) + ",\"replicas\":"@
            + json_opt_u16(u@.replicas) + ",\"cloud\":"@ + json_opt_str(u@.cloud)
            + ",\"workdir\":"@ + json_opt_str(u@.workdir) + ",\"data\":"@ + json_opt_str(
            u@.data,
        ) + ",\"disk_size\":"@ + json_opt_u16(u@.disk_size) + ",\"cpu\":"@ + json_opt_str(
            u@.cpu,
        ) + ",\"memory\":"@ + json_opt_str(u@.memory) + ",\"accelerators\":"@ + json_opt_str(
            u@.accelerators,
        )));
    }
    s.append(",\"setup\":");
    push_json_opt_str(s, &u.setup);
    proof {
        assert(s@ =~= o0 + ("{\"port\":"@ + json_opt_u16(u@.port) + ",\"replicas\":"@
            + json_opt_u16(u@.replicas) + ",\"cloud\":"@ + json_opt_str(u@.cloud)
            + ",\"workdir\":"@ + json_opt_str(u@.workdir) + ",\"data\":"@ + json_opt_str(
            u@.data,
        ) + ",\"disk_size\":"@ + json_opt_u16(u@.disk_size) + ",\"cpu\":"@ + json_opt_str(
            u@.cpu,
        ) + ",\"memory\":"@ + json_opt_str(u@.memory) + ",\"accelerators\":"@ + json_opt_str(
            u@.accelerators,
        ) + ",\"setup\":"@ + json_opt_str(u@.setup)));
    }
    s.append(",\"run\":");
    push_json_opt_str(s, &u.run);
    s.append("}");
    proof {
        reveal(json_of_upc);
        assert(s@ =~= o0 + json_of_upc(u@));
    }
}

fn push_json_opt_upc(s: &mut String, o: &Option<UserProvidedConfig>)
    ensures
        final(s)@ == old(s)@ + json_of_opt_upc(match *o {
            Some(u) => Some(u@),
            None => None,
        }),
{
    match o {
        None => {
            s.append("null");
        },
        Some(u) => {
            push_json_upc(s, u);
        },
    }
}

#[verifier::rlimit(100)]
fn push_json_config(s: &mut String, c: &Configuration)
    ensures
        final(s)@ == old(s)@ + json_of_config(c@),
{
    let ghost o0 = s@;
    s.append("{\"service\":");
    let ghost o1 = s@;
    s.append("{\"readiness_probe\":");
    push_json_string(s, &c.service.readiness_probe);
    proof {
        assert(s@ =~= o1 + ("{\"readiness_probe\":"@ + json_str(c@.service.readiness_probe)));
    }
    s.append(",\"replicas\":");
    push_digits(s, c.service.replicas);
    s.append("}");
    proof {
        reveal(json_of_service);
        assert(s@ =~= o1 + ("{\"readiness_probe\":"@ + json_str(c@.service.readiness_probe)
            + ",\"replicas\":"@ + dec_digits(c@.service.replicas as int) + "}"@));
        assert(s@ =~= o0 + ("{\"service\":"@ + json_of_service(c@.service)));
    }
    let ghost h0 = s@;
    s.append(",\"resources\":");
    let ghost h1 = s@;
    s.append("{\"ports\":");
    push_digits(s, c.resources.ports);
    proof {
        assert(s@ =~= h1 + ("{\"ports\":"@ + dec_digits(c@.resources.ports as int)));
    }
    s.append(",\"cloud\":");
    push_json_string(s, &c.resources.cloud);
    proof {
        assert(s@ =~= h1 + ("{\"ports\":"@ + dec_digits(c@.resources.ports as int)
            + ",\"cloud\":"@ + json_str(c@.resources.cloud)));
    }
    s.append(",\"cpus\":");
    push_json_string(s, &c.resources.cpus);
    proof {
        assert(s@ =~= h1 + ("{\"ports\":"@ + dec_digits(c@.resources.ports as int)
            + ",\"cloud\":"@ + json_str(c@.resources.cloud) + ",\"cpus\":"@ + json_str(
            c@.resources.cpus,
        )));
    }
    s.append(",\"memory\":");
    push_json_string(s, &c.resources.memory);
    proof {
        assert(s@ =~= h1 + ("{\"ports\":"@ + dec_digits(c@.resources.ports as int)
            + ",\"cloud\":"@ + json_str(c@.resources.cloud) + ",\"cpus\":"@ + json_str(
            c@.resources.cpus,
        ) + ",\"memory\":"@ + json_str(c@.resources.memory)));
    }
    s.append(",\"disk_size\":");
    push_digits(s, c.resources.disk_size);
    proof {
        assert(s@ =~= h1 + ("{\"ports\":"@ + dec_digits(c@.resources.ports as int)
            + ",\"cloud\":"@ + json_str(c@.resources.cloud) + ",\"cpus\":"@ + json_str(
            c@.resources.cpus,
        ) + ",\"memory\":"@ + json_str(c@.resources.memory) + ",\"disk_size\":"@ + dec_digits(
            c@.resources.disk_size as int,
        )));
    }
    match &c.resources.accelerators {
        Some(a) => {
            s.append(",\"accelerators\":");
            push_json_string(s, a);
            proof {
                assert(s@ =~= h1 + ("{\"ports\":"@ + dec_digits(c@.resources.ports as int)
                    + ",\"cloud\":"@ + json_str(c@.resources.cloud) + ",\"cpus\":"@ + json_str(
                    c@.resources.cpus,
                ) + ",\"memory\":"@ + json_str(c@.resources.memory) + ",\"disk_size\":"@
                    + dec_digits(c@.resources.disk_size as int) + (",\"accelerators\":"@
                    + json_str(c@.resources.accelerators->0))));
            }
        },
        None => {},
    }
    s.append("}");
    proof {
        reveal(json_of_resources);
        assert(s@ =~= h0 + (",\"resources\":"@ + json_of_resources(c@.resources)));
        assert(s@ =~= o0 + ("{\"service\":"@ + json_of_service(c@.service) + ",\"resources\":"@
            + json_of_resources(c@.resources)));
    }
    s.append(",\"workdir\":");
    push_json_string(s, &c.workdir);
    proof {
        assert(s@ =~= o0 + ("{\"service\":"@ + json_of_service(c@.service) + ",\"resources\":"@
            + json_of_resources(c@.resources) + ",\"workdir\":"@ + json_str(c@.workdir)));
    }
    s.append(",\"setup\":");
    push_json_string(s, &c.setup);
    proof {
        assert(s@ =~= o0 + ("{\"service\":"@ + json_of_service(c@.service) + ",\"resources\":"@
            + json_of_resources(c@.resources) + ",\"workdir\":"@ + json_str(c@.workdir)
            + ",\"setup\":"@ + json_str(c@.setup)));
    }
    s.append(",\"run\":");
    push_json_string(s, &c.run);
    s.append("}");
    proof {
        reveal(json_of_config);
        assert(s@ =~= o0 + json_of_config(c@));
    }
}

/// Renders the status snapshot of one record, compact or pretty.
pub fn render_record(rec: &ServiceRecord, pretty: bool) -> (r: String)
    ensures
        r@ == json_of_record(rec@, pretty),
{
    let mut s = String::new();
    let ghost o0 = s@;
    if pretty {
        s.append("{\n  ");
    } else {
        s.append("{");
    }
    s.append("\"data\":");
    push_json_opt_upc(&mut s, &rec.data);
    if pretty {
        s.append(",\n  ");
    } else {
        s.append(",");
    }
    s.append("\"template\":");
    push_json_config(&mut s, &rec.template);
    if pretty {
        s.append(",\n  ");
    } else {
        s.append(",");
    }
    s.append("\"filepath\":");
    push_json_opt_str(&mut s, &rec.filepath);
    if pretty {
        s.append(",\n  ");
    } else {
        s.append(",");
    }
    s.append("\"url\":");
    push_json_opt_str(&mut s, &rec.url);
    if pretty {
        s.append(",\n  ");
    } else {
        s.append(",");
    }
    s.append("\"up\":");
    push_json_bool(&mut s, rec.up);
    if pretty {
        s.append("\n}");
    } else {
        s.append("}");
    }
    proof {
        reveal(json_of_record);
        assert(s@ =~= o0 + json_of_record(rec@, pretty));
        assert(s@ =~= json_of_record(rec@, pretty));
    }
    s
}

} // verus!
