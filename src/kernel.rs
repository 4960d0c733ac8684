//! Kernels: an entry point with an ordered list of bound arguments, some of
//! them named, and a launch geometry.
use vstd::prelude::*;
use crate::error::OclError;
use crate::queue::Buffer;

verus! {

/// A bound kernel argument.
#[derive(Clone, Copy, Debug, PartialEq, Eq, Structural)]
pub enum KernelArg {
    /// The device buffer itself, not a copy of its contents.
    Buf(Buffer),
    Scalar(u32),
}

/// The entry points that the device executes.
#[derive(Clone, Copy, Debug, PartialEq, Eq, Structural)]
pub enum KernelEntry {
    /// Arguments `(src: buffer, addend: scalar, dst: buffer)`; each work item
    /// `i` stores `src[i] + addend` (wrapping) into `dst[i]`.
    AddScalar,
}

/// A kernel under construction or ready to enqueue.
pub struct Kernel {
    entry: KernelEntry,
    names: Vec<Option<String>>,
    args: Vec<Option<KernelArg>>,
    global: Option<usize>,
    local: Option<usize>,
}

/// Index of the first parameter called `name`, or -1.
pub open spec fn find_name(names: Seq<Option<Seq<char>>>, name: Seq<char>) -> int
    decreases names.len(),
{
    if names.len() == 0 {
        -1
    } else {
        let k = find_name(names.drop_last(), name);
        if k >= 0 {
            k
        } else if names.last() == Some(name) {
            names.len() - 1
        } else {
            -1
        }
    }
}

/// Whether a geometry may be launched: a nonzero global size, and a local
/// size, if any, that divides it.
pub open spec fn geometry_ok(global: usize, local: Option<usize>) -> bool {
    global > 0 && match local {
        Some(l) => l > 0 && global % l == 0,
        None => true,
    }
}

/// Every argument is bound.
pub open spec fn all_bound(args: Seq<Option<KernelArg>>) -> bool {
    forall|i: int| 0 <= i < args.len() ==> (#[trigger] args[i]) is Some
}

impl Kernel {
    pub closed spec fn entry_view(&self) -> KernelEntry {
        self.entry
    }

    /// Parameter names, `None` for a positional one.
    pub closed spec fn names_view(&self) -> Seq<Option<Seq<char>>> {
        self.names@.map_values(|n: Option<String>| match n {
            Some(s) => Some(s@),
            None => None,
        })
    }

    /// The bound arguments, `None` for one declared but not bound.
    pub closed spec fn args_view(&self) -> Seq<Option<KernelArg>> {
        self.args@
    }

    pub closed spec fn global_view(&self) -> Option<usize> {
        self.global
    }

    pub closed spec fn local_view(&self) -> Option<usize> {
        self.local
    }

    pub closed spec fn wf(&self) -> bool {
        self.names@.len() == self.args@.len()
    }

    /// A kernel for `entry` with no arguments and no geometry yet.
    pub fn new(entry: KernelEntry) -> (r: Kernel)
        ensures
            r.wf(),
            r.entry_view() == entry,
            r.names_view() == Seq::<Option<Seq<char>>>::empty(),
            r.args_view() == Seq::<Option<KernelArg>>::empty(),
            r.global_view() is None,
            r.local_view() is None,
    {
        let r = Kernel { entry, names: Vec::new(), args: Vec::new(), global: None, local: None };
        assert(r.names_view() =~= Seq::<Option<Seq<char>>>::empty());
        r
    }

    fn push_param(self, name: Option<String>, arg: Option<KernelArg>) -> (r: Kernel)
        requires
            self.wf(),
        ensures
            r.wf(),
            r.entry_view() == self.entry_view(),
            r.names_view() == self.names_view().push(
                match name {
                    Some(s) => Some(s@),
                    None => None,
                },
            ),
            r.args_view() == self.args_view().push(arg),
            r.global_view() == self.global_view(),
            r.local_view() == self.local_view(),
    {
        let mut k = self;
        k.names.push(name);
        k.args.push(arg);
        assert(k.names_view() =~= self.names_view().push(
            match name {
                Some(s) => Some(s@),
                None => None,
            },
        ));
        k
    }

    /// Adds a buffer parameter called `name`, bound to `buf` when one is given.
    pub fn arg_buf_named(self, name: String, buf: Option<Buffer>) -> (r: Kernel)
        requires
            self.wf(),
        ensures
            r.wf(),
            r.entry_view() == self.entry_view(),
            r.names_view() == self.names_view().push(Some(name@)),
            r.args_view() == self.args_view().push(
                match buf {
                    Some(b) => Some(KernelArg::Buf(b)),
                    None => None,
                },
            ),
            r.global_view() == self.global_view(),
            r.local_view() == self.local_view(),
    {
        let arg = match buf {
            Some(b) => Some(KernelArg::Buf(b)),
            None => None,
        };
        self.push_param(Some(name), arg)
    }

    /// Adds a positional buffer parameter bound to `buf`.
    pub fn arg_buf(self, buf: Buffer) -> (r: Kernel)
        requires
            self.wf(),
        ensures
            r.wf(),
            r.entry_view() == self.entry_view(),
            r.names_view() == self.names_view().push(None),
            r.args_view() == self.args_view().push(Some(KernelArg::Buf(buf))),
            r.global_view() == self.global_view(),
            r.local_view() == self.local_view(),
    {
        self.push_param(None, Some(KernelArg::Buf(buf)))
    }

    /// Adds a positional scalar parameter bound to `value`.
    pub fn arg_scl(self, value: u32) -> (r: Kernel)
        requires
            self.wf(),
        ensures
            r.wf(),
            r.entry_view() == self.entry_view(),
            r.names_view() == self.names_view().push(None),
            r.args_view() == self.args_view().push(Some(KernelArg::Scalar(value))),
            r.global_view() == self.global_view(),
            r.local_view() == self.local_view(),
    {
        self.push_param(None, Some(KernelArg::Scalar(value)))
    }

    /// Rebinds the first parameter called `name` to `buf`, leaving every other
    /// binding as it was; `UnknownArgument` when no parameter has that name.
    pub fn set_arg_buf_named(&mut self, name: &String, buf: Option<Buffer>) -> (r: Result<(), OclError>)
        requires
            old(self).wf(),
        ensures
            final(self).wf(),
            final(self).entry_view() == old(self).entry_view(),
            final(self).names_view() == old(self).names_view(),
            final(self).global_view() == old(self).global_view(),
            final(self).local_view() == old(self).local_view(),
            r is Ok <==> find_name(old(self).names_view(), name@) >= 0,
            r is Ok ==> final(self).args_view() == old(self).args_view().update(
                find_name(old(self).names_view(), name@),
                match buf {
                    Some(b) => Some(KernelArg::Buf(b)),
                    None => None,
                },
            ),
            r is Err ==> r == Err::<(), OclError>(OclError::UnknownArgument) && final(self).args_view() == old(self).args_view(),
    {
        let ghost names = self.names_view();
        let n = self.names.len();
        let mut i: usize = 0;
        while i < n
            invariant
                n == self.names@.len(),
                n == self.args@.len(),
                names == self.names_view(),
                names == old(self).names_view(),
                self.args@ == old(self).args@,
                self.entry == old(self).entry,
                self.global == old(self).global,
                self.local == old(self).local,
                i <= n,
                find_name(names.take(i as int), name@) == -1,
            decreases n - i,
        {
            assert(names.take((i + 1) as int).drop_last() =~= names.take(i as int));
            let hit = match &self.names[i] {
                Some(s) => *s == *name,
                None => false,
            };
            if hit {
                let arg = match buf {
                    Some(b) => Some(KernelArg::Buf(b)),
                    None => None,
                };
                assert(find_name(names.take((i + 1) as int), name@) == i);
                proof {
                    lemma_find_prefix(names, name@, (i + 1) as int);
                }
                self.args.set(i, arg);
                return Ok(());
            }
            i = i + 1;
        }
        assert(names.take(n as int) =~= names);
        Err(OclError::UnknownArgument)
    }

    /// Rebinds the argument at `index` to `arg`, leaving every other binding
    /// as it was; `UnknownArgument` when the kernel has no such parameter.
    pub fn set_arg(&mut self, index: usize, arg: KernelArg) -> (r: Result<(), OclError>)
        requires
            old(self).wf(),
        ensures
            final(self).wf(),
            final(self).entry_view() == old(self).entry_view(),
            final(self).names_view() == old(self).names_view(),
            final(self).global_view() == old(self).global_view(),
            final(self).local_view() == old(self).local_view(),
            r is Ok <==> index < old(self).args_view().len(),
            r is Ok ==> final(self).args_view() == old(self).args_view().update(index as int, Some(arg)),
            r is Err ==> r == Err::<(), OclError>(OclError::UnknownArgument) && final(self).args_view()
                == old(self).args_view(),
    {
        if index >= self.args.len() {
            return Err(OclError::UnknownArgument);
        }
        self.args.set(index, Some(arg));
        Ok(())
    }

    /// Sets the launch geometry; `InvalidGeometry` unless the global size is
    /// nonzero and the local size, if given, is nonzero and divides it.
    pub fn set_geometry(&mut self, global: usize, local: Option<usize>) -> (r: Result<(), OclError>)
        requires
            old(self).wf(),
        ensures
            final(self).wf(),
            final(self).entry_view() == old(self).entry_view(),
            final(self).names_view() == old(self).names_view(),
            final(self).args_view() == old(self).args_view(),
            r is Ok <==> geometry_ok(global, local),
            r is Ok ==> final(self).global_view() == Some(global) && final(self).local_view()
                == local,
            r is Err ==> r == Err::<(), OclError>(OclError::InvalidGeometry) && final(self).global_view() == old(self).global_view() && final(self).local_view() == old(self).local_view(),
    {
        let ok = global > 0 && match local {
            Some(l) => l > 0 && global % l == 0,
            None => true,
        };
        if ok {
            self.global = Some(global);
            self.local = local;
            Ok(())
        } else {
            Err(OclError::InvalidGeometry)
        }
    }

    /// The bound arguments, in order, as they stand now; `UnboundArgument`
    /// when one is missing.
    pub fn bound_args(&self) -> (r: Result<Vec<KernelArg>, OclError>)
        requires
            self.wf(),
        ensures
            r is Ok <==> all_bound(self.args_view()),
            r matches Ok(v) ==> v@.len() == self.args_view().len() && forall|i: int|
                0 <= i < v@.len() ==> self.args_view()[i] == Some(#[trigger] v@[i]),
            r is Err ==> r == Err::<Vec<KernelArg>, OclError>(OclError::UnboundArgument),
    {
        let mut out: Vec<KernelArg> = Vec::new();
        let n = self.args.len();
        let mut i: usize = 0;
        while i < n
            invariant
                n == self.args@.len(),
                i <= n,
                out@.len() == i,
                forall|j: int| 0 <= j < i ==> self.args@[j] == Some(#[trigger] out@[j]),
            decreases n - i,
        {
            match self.args[i] {
                Some(a) => out.push(a),
                None => {
                    assert(!all_bound(self.args_view()));
                    return Err(OclError::UnboundArgument);
                },
            }
            i = i + 1;
        }
        assert forall|j: int| 0 <= j < self.args_view().len() implies (
        #[trigger] self.args_view()[j]) is Some by {
            assert(self.args@[j] == Some(out@[j]));
        }
        Ok(out)
    }

    pub fn entry(&self) -> (r: KernelEntry)
        ensures
            r == self.entry_view(),
    {
        self.entry
    }

    pub fn global_size(&self) -> (r: Option<usize>)
        ensures
            r == self.global_view(),
    {
        self.global
    }
}

proof fn lemma_find_prefix(names: Seq<Option<Seq<char>>>, name: Seq<char>, k: int)
    requires
        0 <= k <= names.len(),
        find_name(names.take(k), name) >= 0,
    ensures
        find_name(names, name) == find_name(names.take(k), name),
    decreases names.len() - k,
{
    if k < names.len() {
        assert(names.take(k + 1).drop_last() =~= names.take(k));
        lemma_find_prefix(names, name, k + 1);
    } else {
        assert(names.take(k) =~= names);
    }
}

} // verus!
