//! The counters in the text form that scrapers read.

use crate::numeral::{decimal, decimal_text};
use crate::roster::coordinator::state::{CoordView, Coordinator};
use vstd::prelude::*;

verus! {

/// A counter: what it is for, its type and its value, a line each.
pub open spec fn counter_text(name: Seq<char>, help: Seq<char>, value: u64) -> Seq<char> {
    "# HELP "@ + name + " "@ + help + "\n# TYPE "@ + name + " counter\n"@ + name + " "@ + decimal(
        value as int,
    ) + "\n"@
}

/// All counters.
pub open spec fn metrics_text(s: CoordView) -> Seq<char> {
    counter_text(
        "relay_forwarded_bytes_total"@,
        "Bytes forwarded over the relay floor."@,
        s.relay_forwarded_bytes,
    ) + counter_text(
        "holepunch_emitted_total"@,
        "HolePunchInitiate directives emitted."@,
        s.holepunch_emitted,
    ) + counter_text(
        "relay_wake_emitted_total"@,
        "RelayWake rendezvous nudges emitted."@,
        s.relay_wake_emitted,
    )
}

fn write_counter(out: &mut String, name: &str, help: &str, value: u64)
    ensures
        final(out)@ == old(out)@ + counter_text(name@, help@, value),
{
    let ghost before = out@;
    out.append("# HELP ");
    out.append(name);
    out.append(" ");
    out.append(help);
    out.append("\n# TYPE ");
    out.append(name);
    out.append(" counter\n");
    out.append(name);
    out.append(" ");
    out.append(decimal_text(value).as_str());
    out.append("\n");
    assert(out@ =~= before + counter_text(name@, help@, value));
}

impl Coordinator {
    /// The counters in text.
    pub fn render_metrics(&self) -> (r: String)
        ensures
            r@ == metrics_text(self@),
    {
        let (bytes, punches, wakes) = self.counters();
        let mut r = String::new();
        write_counter(
            &mut r,
            "relay_forwarded_bytes_total",
            "Bytes forwarded over the relay floor.",
            bytes,
        );
        write_counter(
            &mut r,
            "holepunch_emitted_total",
            "HolePunchInitiate directives emitted.",
            punches,
        );
        write_counter(
            &mut r,
            "relay_wake_emitted_total",
            "RelayWake rendezvous nudges emitted.",
            wakes,
        );
        assert(r@ =~= metrics_text(self@));
        r
    }
}

/// Whether a text stands somewhere in another.
pub open spec fn has_line(s: Seq<char>, line: Seq<char>) -> bool {
    exists|i: int|
        0 <= i && i + line.len() <= s.len() && #[trigger] s.subrange(i, i + line.len()) == line
}

proof fn lemma_has_line(a: Seq<char>, line: Seq<char>, b: Seq<char>)
    ensures
        has_line(a + line + b, line),
{
    let s = a + line + b;
    let i = a.len() as int;
    assert(s.subrange(i, i + line.len()) =~= line);
}

/// Each counter has a line with its name and its value.
pub proof fn law_each_counter_has_its_line(s: CoordView)
    ensures
        has_line(
            metrics_text(s),
            "relay_forwarded_bytes_total"@ + " "@ + decimal(s.relay_forwarded_bytes as int)
                + "\n"@,
        ),
        has_line(
            metrics_text(s),
            "holepunch_emitted_total"@ + " "@ + decimal(s.holepunch_emitted as int) + "\n"@,
        ),
        has_line(
            metrics_text(s),
            "relay_wake_emitted_total"@ + " "@ + decimal(s.relay_wake_emitted as int) + "\n"@,
        ),
{
    let a = counter_text(
        "relay_forwarded_bytes_total"@,
        "Bytes forwarded over the relay floor."@,
        s.relay_forwarded_bytes,
    );
    let b = counter_text(
        "holepunch_emitted_total"@,
        "HolePunchInitiate directives emitted."@,
        s.holepunch_emitted,
    );
    let c = counter_text(
        "relay_wake_emitted_total"@,
        "RelayWake rendezvous nudges emitted."@,
        s.relay_wake_emitted,
    );
    let la = "relay_forwarded_bytes_total"@ + " "@ + decimal(s.relay_forwarded_bytes as int) + "\n"@;
    let lb = "holepunch_emitted_total"@ + " "@ + decimal(s.holepunch_emitted as int) + "\n"@;
    let lc = "relay_wake_emitted_total"@ + " "@ + decimal(s.relay_wake_emitted as int) + "\n"@;
    let ha = counter_head("relay_forwarded_bytes_total"@, "Bytes forwarded over the relay floor."@);
    let hb = counter_head("holepunch_emitted_total"@, "HolePunchInitiate directives emitted."@);
    let hc = counter_head("relay_wake_emitted_total"@, "RelayWake rendezvous nudges emitted."@);
    assert(a =~= ha + la);
    assert(b =~= hb + lb);
    assert(c =~= hc + lc);
    let all = metrics_text(s);
    assert(all =~= ha + la + (b + c));
    assert(all =~= (a + hb) + lb + c);
    assert(all =~= (a + b + hc) + lc + Seq::<char>::empty());
    lemma_has_line(ha, la, b + c);
    lemma_has_line(a + hb, lb, c);
    lemma_has_line(a + b + hc, lc, Seq::empty());
}

/// What stands before the line with the value.
spec fn counter_head(name: Seq<char>, help: Seq<char>) -> Seq<char> {
    "# HELP "@ + name + " "@ + help + "\n# TYPE "@ + name + " counter\n"@
}

} // verus!
