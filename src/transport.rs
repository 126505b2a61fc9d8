use vstd::prelude::*;
use crate::credentials::{key_accepted, key_digest, validated};
use crate::policy::selection;
use crate::reconcile::{ReportResponse, ack_message, reconciled};
use crate::report::AgentReport;
use crate::store::FleetStore;

verus! {

/// Why a report was turned away.
#[derive(PartialEq, Eq, Structural, Clone, Copy, Debug)]
pub enum ReportError {
    /// No credential, or one that no enabled credential matches.
    Unauthorized,
}

impl FleetStore {
    /// Admission control: `Ok` exactly when `api_key` belongs to an enabled
    /// credential, which is then marked used at `now`.
    pub fn authenticate(&mut self, api_key: Option<&str>, now: u64) -> (r: Result<(), ReportError>)
        requires
            old(self).wf(),
        ensures
            final(self).wf(),
            final(self).machines == old(self).machines,
            final(self).metrics == old(self).metrics,
            final(self).policies == old(self).policies,
            final(self).audit == old(self).audit,
            match api_key {
                None => r == Err::<(), ReportError>(ReportError::Unauthorized) && *final(self) == *old(self),
                Some(k) => {
                    &&& validated(old(self).api_keys@, key_digest(k@), now, r.is_ok(), final(self).api_keys@)
                    &&& !r.is_ok() ==> r == Err::<(), ReportError>(ReportError::Unauthorized) && *final(self)
                        == *old(self)
                },
            },
    {
        match api_key {
            None => Err(ReportError::Unauthorized),
            Some(k) => {
                if self.validate_api_key(k, now) {
                    Ok(())
                } else {
                    Err(ReportError::Unauthorized)
                }
            },
        }
    }

    /// Admission control, then reconciliation: a report is applied only when
    /// `api_key` belongs to an enabled credential; otherwise nothing changes.
    pub fn handle_report(&mut self, api_key: Option<&str>, report: &AgentReport, now: u64) -> (r: Result<
        ReportResponse,
        ReportError,
    >)
        requires
            old(self).wf(),
        ensures
            final(self).wf(),
            match api_key {
                None => r == Err::<ReportResponse, ReportError>(ReportError::Unauthorized) && *final(self)
                    == *old(self),
                Some(k) => {
                    &&& r.is_ok() == key_accepted(old(self).api_keys@, key_digest(k@))
                    &&& !r.is_ok() ==> r == Err::<ReportResponse, ReportError>(ReportError::Unauthorized)
                        && *final(self) == *old(self)
                    &&& r.is_ok() ==> exists|mid: FleetStore|
                        {
                            &&& mid.machines == old(self).machines
                            &&& mid.metrics == old(self).metrics
                            &&& mid.policies == old(self).policies
                            &&& mid.audit == old(self).audit
                            &&& validated(old(self).api_keys@, key_digest(k@), now, true, mid.api_keys@)
                            &&& reconciled(mid, *report, now, *final(self))
                        }
                    &&& r matches Ok(resp) ==> {
                        &&& resp.status@ == "ok"@
                        &&& resp.message@ == ack_message(report.hostname@)
                        &&& resp.policies@ == selection(final(self).policies@, report.machine_id@)
                    }
                },
            },
    {
        match self.authenticate(api_key, now) {
            Err(e) => Err(e),
            Ok(()) => {
                let ghost mid = *self;
                let resp = self.receive_report(report, now);
                assert(reconciled(mid, *report, now, *self));
                Ok(resp)
            },
        }
    }
}

} // verus!
