//! Version control: every commit gets a 32-bit hash tied to its
//! branch and version number, with parent links forming a chain per
//! branch and a reverse lookup from hash to version record.

use vstd::prelude::*;
use vstd::string::StringSliceAdditionalSpecFns;

use crate::common::WaCustomError;
use crate::hashing::sip24_of;
use crate::hashing::sip24_hash;

verus! {

/// A 32-bit commit hash.
#[derive(Debug, Clone, Copy, PartialEq, Eq, Structural)]
pub struct CommitHash(pub u32);

/// One commit: its hash, the branch it belongs to (as the branch
/// name's digest), its version number, and its parent's hash.
#[derive(Debug, Clone, Copy)]
pub struct VersionHash {
    pub hash: u32,
    pub branch_key: u64,
    pub version: u32,
    pub parent_hash: Option<u32>,
}

/// The hash assigned to `(branch, version)` under a given parent: the
/// branch digest folded to 32 bits, mixed with the scrambled version
/// number and the scrambled parent hash (scrambling the parent keeps
/// the chain from cancelling out under the mix).
pub open spec fn spec_mix(branch_key: u64, version: u32, parent_hash: Option<u32>) -> u32 {
    let folded = ((branch_key >> 32) as u32) ^ (branch_key as u32);
    let scrambled = (((version as int) * 0x9E3779B1) % 0x1_0000_0000) as u32;
    let parent = match parent_hash {
        Option::Some(h) => (((h as int) * 0x85EBCA6B + 1) % 0x1_0000_0000) as u32,
        Option::None => 0xC2B2AE35u32,
    };
    folded ^ scrambled ^ parent
}

/// The newest recorded version of a branch, if any.
pub open spec fn latest_of_branch(s: Seq<VersionHash>, branch_key: u64) -> Option<VersionHash>
    decreases s.len(),
{
    if s.len() == 0 {
        None
    } else if s.last().branch_key == branch_key {
        Some(s.last())
    } else {
        latest_of_branch(s.drop_last(), branch_key)
    }
}

/// A hash collides within a branch when some recorded version of that
/// branch already carries it.
pub open spec fn branch_collision(s: Seq<VersionHash>, branch_key: u64, hash: u32) -> bool {
    exists|i: int|
        0 <= i < s.len() && (#[trigger] s[i]).branch_key == branch_key && s[i].hash == hash
}

/// The append-only record of all commits.
pub struct VersionControl {
    pub versions: Vec<VersionHash>,
}

impl VersionControl {
    /// An empty history.
    pub fn new() -> (r: Self)
        ensures
            r.versions@.len() == 0,
    {
        VersionControl { versions: Vec::new() }
    }

    /// The newest recorded version of a branch, scanning from the
    /// most recent commit.
    fn find_latest(&self, branch_key: u64) -> (r: Option<VersionHash>)
        ensures
            r == latest_of_branch(self.versions@, branch_key),
    {
        proof {
            assert(self.versions@.take(self.versions@.len() as int) =~= self.versions@);
        }
        let mut i: usize = self.versions.len();
        while i > 0
            invariant
                i <= self.versions@.len(),
                latest_of_branch(self.versions@, branch_key) == latest_of_branch(
                    self.versions@.take(i as int),
                    branch_key,
                ),
            decreases i,
        {
            i = i - 1;
            let v = self.versions[i];
            proof {
                let t = self.versions@.take(i as int + 1);
                assert(t.last() == v);
                assert(t.drop_last() =~= self.versions@.take(i as int));
            }
            if v.branch_key == branch_key {
                return Some(v);
            }
        }
        proof {
            assert(self.versions@.take(0) =~= Seq::<VersionHash>::empty());
        }
        None
    }

    /// Assigns a hash to `(branch, version)`: a function of the
    /// branch, the version number and the branch's current head.  A
    /// hash already used within the branch is a fatal collision and
    /// nothing is recorded; otherwise the new version is appended.
    #[verifier::loop_isolation(false)]
    pub fn generate_hash(&mut self, branch: &str, version: u32) -> (r: Result<
        CommitHash,
        WaCustomError,
    >)
        ensures
            ({
                let key = sip24_of(branch.spec_bytes());
                let parent = latest_of_branch(old(self).versions@, key);
                let h = spec_mix(
                    key,
                    version,
                    match parent {
                        Option::Some(p) => Some(p.hash),
                        Option::None => None,
                    },
                );
                &&& (r is Err) == branch_collision(old(self).versions@, key, h)
                &&& r is Err ==> *final(self) == *old(self)
                &&& r matches Ok(c) ==> c == CommitHash(h) && final(self).versions@ =~= old(
                    self,
                ).versions@.push(
                    VersionHash {
                        hash: h,
                        branch_key: key,
                        version,
                        parent_hash: match parent {
                            Option::Some(p) => Some(p.hash),
                            Option::None => None,
                        },
                    },
                )
            }),
    {
        let key = sip24_hash(branch);
        let parent = self.find_latest(key);
        let parent_hash = match parent {
            Option::Some(p) => Some(p.hash),
            Option::None => None,
        };
        let folded = ((key >> 32) as u32) ^ (key as u32);
        let scrambled = (((version as u64) * 0x9E3779B1) % 0x1_0000_0000) as u32;
        let parent_term = match parent_hash {
            Option::Some(h) => (((h as u64) * 0x85EBCA6B + 1) % 0x1_0000_0000) as u32,
            Option::None => 0xC2B2AE35u32,
        };
        let h = folded ^ scrambled ^ parent_term;
        proof {
            assert(h == spec_mix(key, version, parent_hash));
        }
        let mut i: usize = 0;
        while i < self.versions.len()
            invariant
                i <= self.versions@.len(),
                forall|j: int|
                    0 <= j < i ==> !((#[trigger] self.versions@[j]).branch_key == key
                        && self.versions@[j].hash == h),
                *self == *old(self),
            decreases self.versions@.len() - i,
        {
            let v = self.versions[i];
            if v.branch_key == key && v.hash == h {
                proof {
                    assert(branch_collision(old(self).versions@, key, h)) by {
                        assert(old(self).versions@[i as int].branch_key == key);
                        assert(old(self).versions@[i as int].hash == h);
                    }
                }
                return Err(WaCustomError::DatabaseError(String::from_str(
                    "commit hash collision within branch",
                )));
            }
            i = i + 1;
        }
        self.versions.push(VersionHash { hash: h, branch_key: key, version, parent_hash });
        Ok(CommitHash(h))
    }

    /// Reverse lookup: the first recorded version carrying `hash`.
    pub fn get_version_hash(&self, hash: &CommitHash) -> (r: Option<VersionHash>)
        ensures
            r == first_with_hash(self.versions@, hash.0),
    {
        proof {
            assert(self.versions@.skip(0) =~= self.versions@);
        }
        let mut i: usize = 0;
        while i < self.versions.len()
            invariant
                i <= self.versions@.len(),
                first_with_hash(self.versions@, hash.0) == first_with_hash(
                    self.versions@.skip(i as int),
                    hash.0,
                ),
            decreases self.versions@.len() - i,
        {
            let v = self.versions[i];
            proof {
                assert(self.versions@.skip(i as int)[0] == v);
                assert(self.versions@.skip(i as int).drop_first() =~= self.versions@.skip(
                    i as int + 1,
                ));
            }
            if v.hash == hash.0 {
                return Some(v);
            }
            i = i + 1;
        }
        None
    }
}

/// The first recorded version carrying `hash`, scanning from the
/// oldest commit.
pub open spec fn first_with_hash(s: Seq<VersionHash>, hash: u32) -> Option<VersionHash>
    decreases s.len(),
{
    if s.len() == 0 {
        None
    } else if s[0].hash == hash {
        Some(s[0])
    } else {
        first_with_hash(s.drop_first(), hash)
    }
}

} // verus!
