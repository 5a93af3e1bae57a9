//! The revoke/re-grant driver's decisions: which @sgc resource a
//! `kind:index` argument names, and how long to hold it for how many cycles.

use vstd::prelude::*;
use crate::config::strings_view;
use crate::text::{chars_of, decimal, first_index, parse_int, parse_unsigned, str_eq, string_from, IntErrorKind};

verus! {

/// An input device class and its index among the daemon's devices of that
/// class.
#[derive(Debug, Clone, Copy, PartialEq, Eq, Structural)]
pub enum InputResource {
    Mouse(u8),
    Keyboard(u8),
    Touch(u8),
}

/// A resource the @sgc daemon hands out.
#[derive(Debug, Clone, Copy, PartialEq, Eq, Structural)]
pub enum Resource {
    Fbdev,
    Drm { card: u8 },
    Input(InputResource),
}

/// `kind:index` with the kind `mouse`, `keyboard`, `touch` or `drm` and an
/// index that `str::parse::<u8>` accepts; the split is at the first `:`.
pub open spec fn spec_parse(spec: Seq<char>) -> Option<Resource> {
    match first_index(spec, seq![':']) {
        None => None,
        Some(i) => {
            let kind = spec.take(i);
            match parse_int(spec.skip(i + 1), 0, 255) {
                Err(_) => None,
                Ok(n) => if kind == "mouse"@ {
                    Some(Resource::Input(InputResource::Mouse(n as u8)))
                } else if kind == "keyboard"@ {
                    Some(Resource::Input(InputResource::Keyboard(n as u8)))
                } else if kind == "touch"@ {
                    Some(Resource::Input(InputResource::Touch(n as u8)))
                } else if kind == "drm"@ {
                    Some(Resource::Drm { card: n as u8 })
                } else {
                    None
                },
            }
        },
    }
}

/// The resource a `mouse:N | keyboard:N | touch:N | drm:N` argument names.
pub fn parse(spec: &str) -> (res: Option<Resource>)
    ensures
        res == spec_parse(spec@),
{
    let v = chars_of(spec);
    let colon: Vec<char> = vec![':'];
    assert(colon@ =~= seq![':']);
    assert(v@.subrange(0, v@.len() as int) =~= v@);
    let i = match crate::text::find_first(&v, 0, v.len(), &colon) {
        None => {
            return None;
        },
        Some(i) => i,
    };
    let kind = string_from(&crate::text::slice_chars(&v, 0, i));
    let index = string_from(&crate::text::slice_chars(&v, i + 1, v.len()));
    assert(kind@ =~= spec@.take(i as int));
    assert(index@ =~= spec@.skip(i + 1));
    let n: u8 = match parse_unsigned(index.as_str(), 255) {
        Err(_) => {
            return None;
        },
        Ok(n) => {
            proof {
                crate::selfcheck::lemma_parse_int_bounds(index@, 0, 255);
            }
            n as u8
        },
    };
    let k = kind.as_str();
    if str_eq(k, "mouse") {
        Some(Resource::Input(InputResource::Mouse(n)))
    } else if str_eq(k, "keyboard") {
        Some(Resource::Input(InputResource::Keyboard(n)))
    } else if str_eq(k, "touch") {
        Some(Resource::Input(InputResource::Touch(n)))
    } else if str_eq(k, "drm") {
        Some(Resource::Drm { card: n })
    } else {
        None
    }
}

/// The `kind:index` argument that names a resource; the framebuffer has none.
pub open spec fn spec_name(r: Resource) -> Seq<char> {
    match r {
        Resource::Input(InputResource::Mouse(n)) => "mouse"@ + ":"@ + decimal(n as nat),
        Resource::Input(InputResource::Keyboard(n)) => "keyboard"@ + ":"@ + decimal(n as nat),
        Resource::Input(InputResource::Touch(n)) => "touch"@ + ":"@ + decimal(n as nat),
        Resource::Drm { card } => "drm"@ + ":"@ + decimal(card as nat),
        Resource::Fbdev => Seq::empty(),
    }
}

proof fn lemma_split_at_colon(kind: Seq<char>, n: u8)
    requires
        forall|k: int| 0 <= k < kind.len() ==> kind[k] != ':',
    ensures
        ({
            let s = kind + ":"@ + decimal(n as nat);
            &&& first_index(s, seq![':']) == Some(kind.len() as int)
            &&& s.take(kind.len() as int) == kind
            &&& s.skip(kind.len() as int + 1) == decimal(n as nat)
        }),
{
    reveal_strlit(":");
    let s = kind + ":"@ + decimal(n as nat);
    let k = kind.len() as int;
    assert(s[k] == ':');
    assert(seq![':'][0] == s[k]);
    assert(seq![':'].contains(s[k]));
    crate::text::lemma_first_index(s, seq![':']);
    if let Some(i) = first_index(s, seq![':']) {
        if i < k {
            assert(s[i] == kind[i]);
            assert(seq![':'].contains(s[i]));
            assert(seq![':'][0] == ':');
        }
    }
    assert(s.take(k) =~= kind);
    assert(s.skip(k + 1) =~= decimal(n as nat));
}

/// Every resource but the framebuffer has a name, and `parse` reads that
/// name back as the resource.
pub proof fn law_parse_reads_every_name(r: Resource)
    requires
        !(r is Fbdev),
    ensures
        spec_parse(spec_name(r)) == Some(r),
{
    reveal_strlit("mouse");
    reveal_strlit("keyboard");
    reveal_strlit("touch");
    reveal_strlit("drm");
    let n: u8 = match r {
        Resource::Input(InputResource::Mouse(n)) => n,
        Resource::Input(InputResource::Keyboard(n)) => n,
        Resource::Input(InputResource::Touch(n)) => n,
        Resource::Drm { card } => card,
        Resource::Fbdev => 0,
    };
    let kind: Seq<char> = match r {
        Resource::Input(InputResource::Mouse(_)) => "mouse"@,
        Resource::Input(InputResource::Keyboard(_)) => "keyboard"@,
        Resource::Input(InputResource::Touch(_)) => "touch"@,
        _ => "drm"@,
    };
    assert(spec_name(r) == kind + ":"@ + decimal(n as nat));
    assert(forall|k: int| 0 <= k < kind.len() ==> kind[k] != ':');
    lemma_split_at_colon(kind, n);
    crate::text::lemma_parse_decimal(n as nat, 0, 255);
    assert("mouse"@ != "keyboard"@ && "mouse"@ != "touch"@ && "mouse"@ != "drm"@) by {
        assert("mouse"@.len() != "keyboard"@.len());
        assert("mouse"@[0] != "touch"@[0]);
        assert("mouse"@.len() != "drm"@.len());
    }
    assert("keyboard"@ != "touch"@ && "keyboard"@ != "drm"@ && "touch"@ != "drm"@) by {
        assert("keyboard"@.len() != "touch"@.len());
        assert("keyboard"@.len() != "drm"@.len());
        assert("touch"@.len() != "drm"@.len());
    }
}

/// What one run of the driver does: take `resource`, hold it `hold_ms`,
/// release it, wait `gap_ms` before the next of `cycles` takes.
#[derive(Debug, Clone, Copy, PartialEq, Eq)]
pub struct StealPlan {
    pub resource: Resource,
    pub hold_ms: u64,
    pub cycles: u32,
    pub gap_ms: u64,
}

/// Why the arguments name no plan.
#[derive(Debug, Clone, Copy, PartialEq, Eq)]
pub enum PlanError {
    HoldMs(IntErrorKind),
    Cycles(IntErrorKind),
    GapMs(IntErrorKind),
    /// The resource is not `mouse:N | keyboard:N | touch:N | drm:N`.
    Resource,
}

/// The argument at `i`, or `default` when there are fewer.
pub open spec fn arg_or(args: Seq<Seq<char>>, i: int, default: Seq<char>) -> Seq<char> {
    if i < args.len() {
        args[i]
    } else {
        default
    }
}

/// `<resource> [hold_ms] [cycles] [gap_ms]`, defaulting to `mouse:0`, 2000,
/// 1 and 1000; the numbers are checked in that order, then the resource.
pub open spec fn spec_plan(args: Seq<Seq<char>>) -> Result<(Resource, int, int, int), PlanError> {
    match parse_int(arg_or(args, 1, "2000"@), 0, u64::MAX as int) {
        Err(e) => Err(PlanError::HoldMs(e)),
        Ok(hold) => match parse_int(arg_or(args, 2, "1"@), 0, u32::MAX as int) {
            Err(e) => Err(PlanError::Cycles(e)),
            Ok(cycles) => match parse_int(arg_or(args, 3, "1000"@), 0, u64::MAX as int) {
                Err(e) => Err(PlanError::GapMs(e)),
                Ok(gap) => match spec_parse(arg_or(args, 0, "mouse:0"@)) {
                    None => Err(PlanError::Resource),
                    Some(r) => Ok((r, hold, cycles, gap)),
                },
            },
        },
    }
}

/// A plan (with its numbers as integers) or its error.
pub open spec fn plan_view(r: Result<StealPlan, PlanError>) -> Result<
    (Resource, int, int, int),
    PlanError,
> {
    match r {
        Ok(p) => Ok((p.resource, p.hold_ms as int, p.cycles as int, p.gap_ms as int)),
        Err(e) => Err(e),
    }
}

fn arg_text(args: &[String], i: usize, default: &str) -> (res: String)
    ensures
        res@ == arg_or(strings_view(args@), i as int, default@),
{
    if i < args.len() {
        args[i].clone()
    } else {
        String::from_str(default)
    }
}

/// The plan that the arguments after the program name describe.
pub fn plan_from_args(args: &[String]) -> (res: Result<StealPlan, PlanError>)
    ensures
        plan_view(res) == spec_plan(strings_view(args@)),
{
    let hold = arg_text(args, 1, "2000");
    let hold_ms = match parse_unsigned(hold.as_str(), u64::MAX) {
        Err(e) => {
            return Err(PlanError::HoldMs(e));
        },
        Ok(v) => v,
    };
    let cycles_text = arg_text(args, 2, "1");
    let cycles = match parse_unsigned(cycles_text.as_str(), u32::MAX as u64) {
        Err(e) => {
            return Err(PlanError::Cycles(e));
        },
        Ok(v) => {
            proof {
                crate::selfcheck::lemma_parse_int_bounds(cycles_text@, 0, u32::MAX as int);
            }
            v as u32
        },
    };
    let gap = arg_text(args, 3, "1000");
    let gap_ms = match parse_unsigned(gap.as_str(), u64::MAX) {
        Err(e) => {
            return Err(PlanError::GapMs(e));
        },
        Ok(v) => v,
    };
    let spec = arg_text(args, 0, "mouse:0");
    match parse(spec.as_str()) {
        None => Err(PlanError::Resource),
        Some(resource) => Ok(StealPlan { resource, hold_ms, cycles, gap_ms }),
    }
}

} // verus!
