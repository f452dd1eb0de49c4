//! The signal dispatcher's decision logic.
//!
//! One dedicated thread blocks on the registered signal set and hands each
//! signal, in arrival order, to [`Dispatcher::handle_signal`]; the returned
//! actions are carried out in order. The reload signal triggers a
//! configuration reload and a logging re-initialization; a terminating
//! signal runs the termination hooks in registration order and sets the
//! terminated flag, ending the dispatch loop; any other registered signal
//! runs only its own hooks.

use vstd::prelude::*;

verus! {

/// One action the dispatch loop must carry out, in order.
#[derive(Clone, Copy, Debug, PartialEq, Eq, Structural)]
pub enum SignalAction {
    /// Re-read all configuration sources, merge them and run the
    /// validation pass; on failure keep the previous state and log.
    ReloadConfig,
    /// Re-initialize logging; on failure keep the previous state and log.
    ReinitLogging,
    /// Run the termination hook with this registration number.
    RunTerminateHook { hook: u64 },
    /// Run the per-signal hook with this registration number.
    RunHook { hook: u64 },
}

/// Whether a signal is in the given set.
pub open spec fn contains_signal(signals: Seq<i32>, signal: i32) -> bool {
    exists|i: int| 0 <= i < signals.len() && signals[i] == signal
}

/// The hook actions registered for one signal, in registration order.
pub open spec fn hooks_for(hooks: Seq<(i32, u64)>, signal: i32) -> Seq<SignalAction>
    decreases hooks.len(),
{
    if hooks.len() == 0 {
        Seq::empty()
    } else {
        hooks_for(hooks.drop_last(), signal) + (if hooks.last().0 == signal {
            seq![SignalAction::RunHook { hook: hooks.last().1 }]
        } else {
            Seq::empty()
        })
    }
}

/// One action per termination hook, in registration order.
pub open spec fn terminate_hook_actions(hooks: Seq<u64>) -> Seq<SignalAction> {
    Seq::new(hooks.len(), |i: int| SignalAction::RunTerminateHook { hook: hooks[i] })
}

/// The dispatcher's registrations and its terminated flag. Hooks are held
/// as registration numbers; the embedding keeps the matching closures and
/// runs them when told to.
#[derive(Debug)]
pub struct Dispatcher {
    /// The one signal reserved for configuration reload.
    pub reload_signal: i32,
    /// The signals that terminate the process.
    pub terminate_signals: Vec<i32>,
    /// Per-signal hooks: (signal, hook number), in registration order.
    pub sig_hooks: Vec<(i32, u64)>,
    /// Termination hooks, in registration order.
    pub terminate_hooks: Vec<u64>,
    /// Set once a terminating signal was handled; the dispatch loop ends.
    pub terminated: bool,
}

impl Dispatcher {
    /// A dispatcher with the given registrations, not yet terminated.
    pub fn new(
        reload_signal: i32,
        terminate_signals: Vec<i32>,
        sig_hooks: Vec<(i32, u64)>,
        terminate_hooks: Vec<u64>,
    ) -> (d: Self)
        ensures
            d.reload_signal == reload_signal,
            d.terminate_signals == terminate_signals,
            d.sig_hooks == sig_hooks,
            d.terminate_hooks == terminate_hooks,
            !d.terminated,
    {
        Dispatcher { reload_signal, terminate_signals, sig_hooks, terminate_hooks, terminated: false }
    }

    /// Whether a terminating signal was handled.
    pub fn is_terminated(&self) -> (r: bool)
        ensures
            r == self.terminated,
    {
        self.terminated
    }

    /// Whether this signal terminates the process.
    fn is_terminating(&self, signal: i32) -> (r: bool)
        ensures
            r == contains_signal(self.terminate_signals@, signal),
    {
        let mut i: usize = 0;
        while i < self.terminate_signals.len()
            invariant
                i <= self.terminate_signals.len(),
                forall|j: int| 0 <= j < i ==> self.terminate_signals@[j] != signal,
            decreases self.terminate_signals.len() - i,
        {
            if self.terminate_signals[i] == signal {
                return true;
            }
            i += 1;
        }
        false
    }

    /// The hook actions registered for this signal, in registration order.
    fn signal_hook_actions(&self, signal: i32) -> (actions: Vec<SignalAction>)
        ensures
            actions@ == hooks_for(self.sig_hooks@, signal),
    {
        let mut actions: Vec<SignalAction> = Vec::new();
        let mut m: usize = 0;
        proof {
            assert(self.sig_hooks@.take(0) =~= Seq::<(i32, u64)>::empty());
            assert(actions@ =~= hooks_for(self.sig_hooks@.take(0), signal));
        }
        while m < self.sig_hooks.len()
            invariant
                m <= self.sig_hooks@.len(),
                actions@ == hooks_for(self.sig_hooks@.take(m as int), signal),
            decreases self.sig_hooks@.len() - m,
        {
            let (sig, hook) = self.sig_hooks[m];
            if sig == signal {
                actions.push(SignalAction::RunHook { hook });
            }
            proof {
                assert(self.sig_hooks@.take(m as int + 1).drop_last() =~= self.sig_hooks@.take(
                    m as int,
                ));
                assert(self.sig_hooks@.take(m as int + 1).last() == self.sig_hooks@[m as int]);
                assert(actions@ =~= hooks_for(self.sig_hooks@.take(m as int + 1), signal));
            }
            m += 1;
        }
        proof {
            assert(self.sig_hooks@.take(self.sig_hooks@.len() as int) =~= self.sig_hooks@);
        }
        actions
    }

    /// Handles one signal: returns the actions to carry out, in order, and
    /// sets the terminated flag when the signal terminates.
    ///
    /// The reload signal asks for a configuration reload and a logging
    /// re-initialization, then its own hooks. A terminating signal asks for
    /// every termination hook in registration order, then its own hooks. Any
    /// other signal asks only for its own hooks. The registrations
    /// themselves never change.
    pub fn handle_signal(&mut self, signal: i32) -> (actions: Vec<SignalAction>)
        ensures
            final(self).reload_signal == old(self).reload_signal,
            final(self).terminate_signals == old(self).terminate_signals,
            final(self).sig_hooks == old(self).sig_hooks,
            final(self).terminate_hooks == old(self).terminate_hooks,
            signal == old(self).reload_signal ==> {
                &&& actions@ == seq![
                    SignalAction::ReloadConfig,
                    SignalAction::ReinitLogging,
                ] + hooks_for(old(self).sig_hooks@, signal)
                &&& final(self).terminated == old(self).terminated
            },
            signal != old(self).reload_signal && contains_signal(
                old(self).terminate_signals@,
                signal,
            ) ==> {
                &&& actions@ == terminate_hook_actions(old(self).terminate_hooks@) + hooks_for(
                    old(self).sig_hooks@,
                    signal,
                )
                &&& final(self).terminated
            },
            signal != old(self).reload_signal && !contains_signal(
                old(self).terminate_signals@,
                signal,
            ) ==> {
                &&& actions@ == hooks_for(old(self).sig_hooks@, signal)
                &&& final(self).terminated == old(self).terminated
            },
    {
        let mut actions: Vec<SignalAction> = Vec::new();
        if signal == self.reload_signal {
            actions.push(SignalAction::ReloadConfig);
            actions.push(SignalAction::ReinitLogging);
        } else if self.is_terminating(signal) {
            let mut t: usize = 0;
            proof {
                assert(actions@ =~= terminate_hook_actions(self.terminate_hooks@.take(0)));
            }
            while t < self.terminate_hooks.len()
                invariant
                    t <= self.terminate_hooks@.len(),
                    actions@ == terminate_hook_actions(self.terminate_hooks@.take(t as int)),
                decreases self.terminate_hooks@.len() - t,
            {
                actions.push(SignalAction::RunTerminateHook { hook: self.terminate_hooks[t] });
                proof {
                    assert(actions@ =~= terminate_hook_actions(self.terminate_hooks@.take(
                        t as int + 1,
                    )));
                }
                t += 1;
            }
            proof {
                assert(self.terminate_hooks@.take(self.terminate_hooks@.len() as int)
                    =~= self.terminate_hooks@);
            }
            self.terminated = true;
        }
        let mut sig_actions = self.signal_hook_actions(signal);
        let ghost head = actions@;
        actions.append(&mut sig_actions);
        proof {
            assert(actions@ =~= head + hooks_for(self.sig_hooks@, signal));
            if signal == old(self).reload_signal {
                assert(head =~= seq![SignalAction::ReloadConfig, SignalAction::ReinitLogging]);
            } else if contains_signal(old(self).terminate_signals@, signal) {
            } else {
                assert(head =~= Seq::<SignalAction>::empty());
                assert(actions@ =~= hooks_for(old(self).sig_hooks@, signal));
            }
        }
        actions
    }

    /// The whole set of signals the dispatcher's thread must subscribe to:
    /// the reload signal, every terminating signal and every signal with a
    /// hook, each exactly once, in that order of first appearance.
    pub fn signal_set(&self) -> (signals: Vec<i32>)
        ensures
            forall|i: int, j: int| 0 <= i < j < signals@.len() ==> signals@[i] != signals@[j],
            forall|s: i32| contains_signal(signals@, s) <==> (s == self.reload_signal
                || contains_signal(self.terminate_signals@, s) || exists|h: int|
                0 <= h < self.sig_hooks@.len() && (#[trigger] self.sig_hooks@[h]).0 == s),
    {
        let mut signals: Vec<i32> = Vec::new();
        push_unique(&mut signals, self.reload_signal);
        let mut i: usize = 0;
        while i < self.terminate_signals.len()
            invariant
                i <= self.terminate_signals@.len(),
                forall|a: int, b: int| 0 <= a < b < signals@.len() ==> signals@[a] != signals@[b],
                forall|s: i32| contains_signal(signals@, s) <==> (s == self.reload_signal
                    || contains_signal(self.terminate_signals@.take(i as int), s)),
            decreases self.terminate_signals@.len() - i,
        {
            push_unique(&mut signals, self.terminate_signals[i]);
            proof {
                assert forall|s: i32| contains_signal(signals@, s) implies (s
                    == self.reload_signal || contains_signal(
                    self.terminate_signals@.take(i as int + 1),
                    s,
                )) by {
                    if s != self.reload_signal && !contains_signal(
                        self.terminate_signals@.take(i as int),
                        s,
                    ) {
                        assert(s == self.terminate_signals@[i as int]);
                        assert(self.terminate_signals@.take(i as int + 1)[i as int] == s);
                    }
                }
                assert forall|s: i32| (s == self.reload_signal || contains_signal(
                    self.terminate_signals@.take(i as int + 1),
                    s,
                )) implies contains_signal(signals@, s) by {
                    if s != self.reload_signal {
                        let x = choose|x: int|
                            0 <= x < i as int + 1 && #[trigger] self.terminate_signals@.take(
                                i as int + 1,
                            )[x] == s;
                        if x < i as int {
                            assert(contains_signal(self.terminate_signals@.take(i as int), s));
                        } else {
                            assert(s == self.terminate_signals@[i as int]);
                        }
                    }
                }
            }
            i += 1;
        }
        proof {
            assert(self.terminate_signals@.take(self.terminate_signals@.len() as int)
                =~= self.terminate_signals@);
        }
        let mut h: usize = 0;
        while h < self.sig_hooks.len()
            invariant
                h <= self.sig_hooks@.len(),
                forall|a: int, b: int| 0 <= a < b < signals@.len() ==> signals@[a] != signals@[b],
                forall|s: i32| contains_signal(signals@, s) <==> (s == self.reload_signal
                    || contains_signal(self.terminate_signals@, s) || exists|x: int|
                    0 <= x < h && (#[trigger] self.sig_hooks@[x]).0 == s),
            decreases self.sig_hooks@.len() - h,
        {
            let (sig, _hook) = self.sig_hooks[h];
            push_unique(&mut signals, sig);
            proof {
                assert forall|s: i32| contains_signal(signals@, s) implies (s
                    == self.reload_signal || contains_signal(self.terminate_signals@, s)
                    || exists|x: int| 0 <= x < h as int + 1 && (#[trigger] self.sig_hooks@[x]).0
                    == s) by {
                    if s != self.reload_signal && !contains_signal(self.terminate_signals@, s)
                        && !(exists|x: int| 0 <= x < h as int && (#[trigger] self.sig_hooks@[x]).0
                        == s) {
                        assert(s == sig);
                        assert((self.sig_hooks@[h as int]).0 == s);
                    }
                }
            }
            h += 1;
        }
        signals
    }
}

/// Appends the signal unless it is already in the list, keeping the list
/// free of duplicates.
fn push_unique(signals: &mut Vec<i32>, signal: i32)
    ensures
        contains_signal(old(signals)@, signal) ==> final(signals)@ == old(signals)@,
        !contains_signal(old(signals)@, signal) ==> final(signals)@ == old(signals)@.push(signal),
        (forall|a: int, b: int|
            0 <= a < b < old(signals)@.len() ==> old(signals)@[a] != old(signals)@[b]) ==> (
        forall|c: int, d: int|
            0 <= c < d < final(signals)@.len() ==> final(signals)@[c] != final(signals)@[d]),
        forall|s: i32| contains_signal(final(signals)@, s) <==> (contains_signal(
            old(signals)@,
            s,
        ) || s == signal),
{
    let mut i: usize = 0;
    while i < signals.len()
        invariant
            i <= signals@.len(),
            signals@ == old(signals)@,
            forall|j: int| 0 <= j < i ==> signals@[j] != signal,
        decreases signals@.len() - i,
    {
        if signals[i] == signal {
            proof {
                assert(contains_signal(old(signals)@, signal));
                assert forall|s: i32| contains_signal(signals@, s) <==> (contains_signal(
                    old(signals)@,
                    s,
                ) || s == signal) by {}
            }
            return ;
        }
        i += 1;
    }
    proof {
        assert(!contains_signal(old(signals)@, signal));
    }
    signals.push(signal);
    proof {
        assert forall|s: i32| contains_signal(signals@, s) implies (contains_signal(
            old(signals)@,
            s,
        ) || s == signal) by {
            let x = choose|x: int| 0 <= x < signals@.len() && signals@[x] == s;
            if x < signals@.len() - 1 {
                assert(contains_signal(old(signals)@, s));
            }
        }
        assert forall|s: i32| (contains_signal(old(signals)@, s) || s == signal)
            implies contains_signal(signals@, s) by {
            if s == signal {
                assert(signals@[signals@.len() - 1] == s);
            } else {
                let x = choose|x: int| 0 <= x < old(signals)@.len() && old(signals)@[x] == s;
                assert(signals@[x] == s);
            }
        }
    }
}

} // verus!
