//! The configuration flags that the compiler sets for a target.

use vstd::prelude::*;

verus! {

/// A configuration flag: a name alone, or a name with a value.
#[derive(Debug, Clone, PartialEq, Eq)]
pub enum CfgFlag {
    Atom(String),
    KeyValue { key: String, value: String },
}

/// A configuration flag as a value.
pub enum CfgFlagView {
    Atom(Seq<char>),
    KeyValue { key: Seq<char>, value: Seq<char> },
}

impl View for CfgFlag {
    type V = CfgFlagView;

    open spec fn view(&self) -> CfgFlagView {
        match *self {
            CfgFlag::Atom(name) => CfgFlagView::Atom(name@),
            CfgFlag::KeyValue { key, value } => CfgFlagView::KeyValue { key: key@, value: value@ },
        }
    }
}

impl CfgFlag {
    /// A copy of the flag.
    pub fn duplicate(&self) -> (res: CfgFlag)
        ensures
            res@ == self@,
    {
        match self {
            CfgFlag::Atom(name) => CfgFlag::Atom(name.clone()),
            CfgFlag::KeyValue { key, value } => CfgFlag::KeyValue {
                key: key.clone(),
                value: value.clone(),
            },
        }
    }
}

/// The flags of `flags` as values.
pub open spec fn flag_views(flags: Seq<CfgFlag>) -> Seq<CfgFlagView> {
    Seq::new(flags.len(), |i: int| flags[i]@)
}

/// The two flags that say that atomics of the width `width` are there.
pub open spec fn atomic_flags(width: Seq<char>) -> Seq<CfgFlagView> {
    seq![
        CfgFlagView::KeyValue { key: "target_has_atomic"@, value: width },
        CfgFlagView::KeyValue { key: "target_has_atomic_load_store"@, value: width },
    ]
}

/// The flags that the standard library needs and that the compiler does not
/// print: thread-local storage, and atomics of all widths.
pub open spec fn builtin_flags() -> Seq<CfgFlagView> {
    seq![CfgFlagView::Atom("target_thread_local"@)] + atomic_flags("8"@) + atomic_flags("16"@)
        + atomic_flags("32"@) + atomic_flags("64"@) + atomic_flags("cas"@) + atomic_flags("ptr"@)
}

fn push_atomic_flags(res: &mut Vec<CfgFlag>, width: &str)
    ensures
        flag_views(final(res)@) == flag_views(old(res)@) + atomic_flags(width@),
{
    let ghost before = flag_views(res@);
    res.push(CfgFlag::KeyValue { key: "target_has_atomic".to_owned(), value: width.to_owned() });
    res.push(
        CfgFlag::KeyValue {
            key: "target_has_atomic_load_store".to_owned(),
            value: width.to_owned(),
        },
    );
    assert(flag_views(res@) =~= before + atomic_flags(width@));
}

/// The configuration flags of a target: those that the standard library
/// needs, and then those that the compiler printed for the target, if it
/// could be asked.
pub fn get_rustc_cfg_options(rustc_cfgs: Option<&Vec<CfgFlag>>) -> (res: Vec<CfgFlag>)
    ensures
        flag_views(res@) == builtin_flags() + match rustc_cfgs {
            Some(printed) => flag_views(printed@),
            None => Seq::empty(),
        },
{
    let mut res: Vec<CfgFlag> = Vec::new();
    res.push(CfgFlag::Atom("target_thread_local".to_owned()));
    assert(flag_views(res@) =~= seq![CfgFlagView::Atom("target_thread_local"@)]);
    push_atomic_flags(&mut res, "8");
    push_atomic_flags(&mut res, "16");
    push_atomic_flags(&mut res, "32");
    push_atomic_flags(&mut res, "64");
    push_atomic_flags(&mut res, "cas");
    push_atomic_flags(&mut res, "ptr");
    match rustc_cfgs {
        Some(printed) => {
            let mut i: usize = 0;
            assert(flag_views(res@) =~= builtin_flags() + flag_views(printed@).take(0));
            while i < printed.len()
                invariant
                    0 <= i <= printed@.len(),
                    flag_views(res@) == builtin_flags() + flag_views(printed@).take(i as int),
                decreases printed@.len() - i,
            {
                let ghost before = flag_views(res@);
                res.push(printed[i].duplicate());
                i += 1;
                assert(flag_views(res@) =~= before.push(printed@[i - 1]@));
                assert(flag_views(res@) =~= builtin_flags() + flag_views(printed@).take(i as int));
            }
            assert(flag_views(printed@).take(i as int) =~= flag_views(printed@));
        },
        None => {
            assert(flag_views(res@) =~= builtin_flags() + Seq::<CfgFlagView>::empty());
        },
    }
    res
}

} // verus!
