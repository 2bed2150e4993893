//! The installation configuration: which disks hold the boot, configuration
//! and data partitions, the checks that an update of it must pass, the names
//! of the partitions it creates and the boot loader configuration it writes.
use vstd::prelude::*;

use crate::model::opt_text;
use crate::text::{push_char, push_str, str_eq};

verus! {

/// How the configuration or data partition is encrypted.
#[derive(Debug)]
pub enum DiskEncryption {
    /// With a fixed key, unlocked at boot when `autounlock` holds.
    Static { key: String, autounlock: bool },
    /// With a key sealed in the TPM.
    Tpm2,
}

/// A partition to create on a disk.
#[derive(Debug)]
pub enum DiskPartition {
    Boot,
    Config { encryption: Option<DiskEncryption> },
    Data { encryption: Option<DiskEncryption> },
}

/// A disk and the partitions to create on it.
#[derive(Debug)]
pub struct InstallDisk {
    pub dev: String,
    pub partitions: Vec<DiskPartition>,
}

/// The configuration of the installation on disk.
#[derive(Debug)]
pub struct InstallConfig {
    pub disks: Vec<InstallDisk>,
}

/// How a partition is encrypted, as plain values.
pub enum EncryptionView {
    Static { key: Seq<char>, autounlock: bool },
    Tpm2,
}

impl View for DiskEncryption {
    type V = EncryptionView;

    open spec fn view(&self) -> EncryptionView {
        match self {
            DiskEncryption::Static { key, autounlock } => EncryptionView::Static { key: key@, autounlock: *autounlock },
            DiskEncryption::Tpm2 => EncryptionView::Tpm2,
        }
    }
}

/// A partition, as plain values.
pub enum PartitionView {
    Boot,
    Config(Option<EncryptionView>),
    Data(Option<EncryptionView>),
}

pub open spec fn opt_encryption(e: Option<DiskEncryption>) -> Option<EncryptionView> {
    match e {
        Some(x) => Some(x@),
        None => None,
    }
}

impl View for DiskPartition {
    type V = PartitionView;

    open spec fn view(&self) -> PartitionView {
        match self {
            DiskPartition::Boot => PartitionView::Boot,
            DiskPartition::Config { encryption } => PartitionView::Config(opt_encryption(*encryption)),
            DiskPartition::Data { encryption } => PartitionView::Data(opt_encryption(*encryption)),
        }
    }
}

impl DiskEncryption {
    /// A copy of the encryption.
    pub fn copy(&self) -> (r: DiskEncryption)
        ensures
            r@ == self@,
    {
        match self {
            DiskEncryption::Static { key, autounlock } => DiskEncryption::Static {
                key: key.clone(),
                autounlock: *autounlock,
            },
            DiskEncryption::Tpm2 => DiskEncryption::Tpm2,
        }
    }
}

fn copy_encryption(e: &Option<DiskEncryption>) -> (r: Option<DiskEncryption>)
    ensures
        opt_encryption(r) == opt_encryption(*e),
{
    match e {
        Some(x) => Some(x.copy()),
        None => None,
    }
}

impl DiskPartition {
    /// A copy of the partition.
    pub fn copy(&self) -> (r: DiskPartition)
        ensures
            r@ == self@,
    {
        match self {
            DiskPartition::Boot => DiskPartition::Boot,
            DiskPartition::Config { encryption } => DiskPartition::Config { encryption: copy_encryption(encryption) },
            DiskPartition::Data { encryption } => DiskPartition::Data { encryption: copy_encryption(encryption) },
        }
    }
}

/// The three kinds of partitions.
#[derive(Debug, Clone, Copy, PartialEq, Eq, Structural)]
pub enum PartitionKind {
    Boot,
    Config,
    Data,
}

pub open spec fn kind_of(p: DiskPartition) -> PartitionKind {
    match p {
        DiskPartition::Boot => PartitionKind::Boot,
        DiskPartition::Config { .. } => PartitionKind::Config,
        DiskPartition::Data { .. } => PartitionKind::Data,
    }
}

impl DiskPartition {
    pub fn kind(&self) -> (r: PartitionKind)
        ensures
            r == kind_of(*self),
    {
        match self {
            DiskPartition::Boot => PartitionKind::Boot,
            DiskPartition::Config { .. } => PartitionKind::Config,
            DiskPartition::Data { .. } => PartitionKind::Data,
        }
    }
}

/// The disk `dev` once for each partition of kind `kind` among `parts`.
pub open spec fn part_devs(dev: Seq<char>, parts: Seq<DiskPartition>, kind: PartitionKind) -> Seq<
    Seq<char>,
>
    decreases parts.len(),
{
    if parts.len() == 0 {
        Seq::empty()
    } else if kind_of(parts.last()) == kind {
        part_devs(dev, parts.drop_last(), kind).push(dev)
    } else {
        part_devs(dev, parts.drop_last(), kind)
    }
}

/// The disks of the partitions of kind `kind`, in the order of the
/// configuration (a disk once for each such partition on it).
pub open spec fn kind_devs(disks: Seq<InstallDisk>, kind: PartitionKind) -> Seq<Seq<char>>
    decreases disks.len(),
{
    if disks.len() == 0 {
        Seq::empty()
    } else {
        kind_devs(disks.drop_last(), kind) + part_devs(
            disks.last().dev@,
            disks.last().partitions@,
            kind,
        )
    }
}

/// The disks of the partitions of kind `kind` in `config`.
pub fn devs_of_kind(config: &InstallConfig, kind: PartitionKind) -> (r: Vec<String>)
    ensures
        r@.map_values(|s: String| s@) == kind_devs(config.disks@, kind),
{
    let ghost disks = config.disks@;
    let mut out: Vec<String> = Vec::new();
    let mut i: usize = 0;
    while i < config.disks.len()
        invariant
            disks == config.disks@,
            i <= disks.len(),
            out@.map_values(|s: String| s@) == kind_devs(disks.take(i as int), kind),
        decreases disks.len() - i,
    {
        let disk = &config.disks[i];
        let ghost base = out@.map_values(|s: String| s@);
        let mut j: usize = 0;
        proof {
            assert(disk.partitions@.take(0) =~= Seq::<DiskPartition>::empty());
            assert(out@.map_values(|s: String| s@) =~= base + part_devs(
                disk.dev@,
                disk.partitions@.take(0),
                kind,
            ));
        }
        while j < disk.partitions.len()
            invariant
                j <= disk.partitions@.len(),
                out@.map_values(|s: String| s@) == base + part_devs(
                    disk.dev@,
                    disk.partitions@.take(j as int),
                    kind,
                ),
            decreases disk.partitions@.len() - j,
        {
            let ghost prev = out@.map_values(|s: String| s@);
            let ghost parts = disk.partitions@.take(j + 1);
            proof {
                assert(parts.drop_last() =~= disk.partitions@.take(j as int));
                assert(parts.last() == disk.partitions@[j as int]);
            }
            if disk.partitions[j].kind() == kind {
                out.push(disk.dev.clone());
                proof {
                    assert(out@.map_values(|s: String| s@) =~= prev.push(disk.dev@));
                }
            }
            j = j + 1;
        }
        proof {
            let d = disks.take(i + 1);
            assert(d.drop_last() =~= disks.take(i as int));
            assert(d.last() == disks[i as int]);
            assert(disk.partitions@.take(disk.partitions@.len() as int) =~= disk.partitions@);
        }
        i = i + 1;
    }
    proof {
        assert(disks.take(disks.len() as int) =~= disks);
    }
    out
}

/// The partitions of kind `kind` among `parts`.
pub open spec fn part_parts(parts: Seq<DiskPartition>, kind: PartitionKind) -> Seq<PartitionView>
    decreases parts.len(),
{
    if parts.len() == 0 {
        Seq::empty()
    } else if kind_of(parts.last()) == kind {
        part_parts(parts.drop_last(), kind).push(parts.last()@)
    } else {
        part_parts(parts.drop_last(), kind)
    }
}

/// The partitions of kind `kind`, in the order of the configuration.
pub open spec fn kind_parts(disks: Seq<InstallDisk>, kind: PartitionKind) -> Seq<PartitionView>
    decreases disks.len(),
{
    if disks.len() == 0 {
        Seq::empty()
    } else {
        kind_parts(disks.drop_last(), kind) + part_parts(disks.last().partitions@, kind)
    }
}

/// The partitions of kind `kind` in `config`.
pub fn parts_of_kind(config: &InstallConfig, kind: PartitionKind) -> (r: Vec<DiskPartition>)
    ensures
        r@.map_values(|p: DiskPartition| p@) == kind_parts(config.disks@, kind),
{
    let ghost disks = config.disks@;
    let mut out: Vec<DiskPartition> = Vec::new();
    let mut i: usize = 0;
    while i < config.disks.len()
        invariant
            disks == config.disks@,
            i <= disks.len(),
            out@.map_values(|p: DiskPartition| p@) == kind_parts(disks.take(i as int), kind),
        decreases disks.len() - i,
    {
        let disk = &config.disks[i];
        let ghost base = out@.map_values(|p: DiskPartition| p@);
        let mut j: usize = 0;
        proof {
            assert(disk.partitions@.take(0) =~= Seq::<DiskPartition>::empty());
            assert(out@.map_values(|p: DiskPartition| p@) =~= base + part_parts(disk.partitions@.take(0), kind));
        }
        while j < disk.partitions.len()
            invariant
                j <= disk.partitions@.len(),
                out@.map_values(|p: DiskPartition| p@) == base + part_parts(disk.partitions@.take(j as int), kind),
            decreases disk.partitions@.len() - j,
        {
            let ghost prev = out@.map_values(|p: DiskPartition| p@);
            let ghost parts = disk.partitions@.take(j + 1);
            proof {
                assert(parts.drop_last() =~= disk.partitions@.take(j as int));
                assert(parts.last() == disk.partitions@[j as int]);
            }
            if disk.partitions[j].kind() == kind {
                out.push(disk.partitions[j].copy());
                proof {
                    assert(out@.map_values(|p: DiskPartition| p@) =~= prev.push(disk.partitions@[j as int]@));
                }
            }
            j = j + 1;
        }
        proof {
            let d = disks.take(i + 1);
            assert(d.drop_last() =~= disks.take(i as int));
            assert(d.last() == disks[i as int]);
            assert(disk.partitions@.take(disk.partitions@.len() as int) =~= disk.partitions@);
        }
        i = i + 1;
    }
    proof {
        assert(disks.take(disks.len() as int) =~= disks);
    }
    out
}

/// Why an installation configuration is refused.
#[derive(Debug, Clone, Copy, PartialEq, Eq, Structural)]
pub enum InstallError {
    MultipleBoot,
    MultipleConfig,
    MultipleData,
    /// A partition already installed would move to another disk.
    Moved,
    /// A partition already installed would be removed.
    Removed,
    /// A boot partition would come after an installed configuration one.
    AfterConfig,
    /// A partition would come after an installed data one.
    AfterData,
}

pub open spec fn install_error_text(e: InstallError) -> Seq<char> {
    match e {
        InstallError::MultipleBoot => "can only specify one boot partition"@,
        InstallError::MultipleConfig => "can only specify one config partition"@,
        InstallError::MultipleData => "can only specify one data partition"@,
        InstallError::Moved => "cannot move boot disk to another partition"@,
        InstallError::Removed => "cannot remove boot disk"@,
        InstallError::AfterConfig => "cannot append partition after config"@,
        InstallError::AfterData => "cannot append partition after data"@,
    }
}

impl InstallError {
    /// The message of the error.
    pub fn message(&self) -> (r: &'static str)
        ensures
            r@ == install_error_text(*self),
    {
        match self {
            InstallError::MultipleBoot => "can only specify one boot partition",
            InstallError::MultipleConfig => "can only specify one config partition",
            InstallError::MultipleData => "can only specify one data partition",
            InstallError::Moved => "cannot move boot disk to another partition",
            InstallError::Removed => "cannot remove boot disk",
            InstallError::AfterConfig => "cannot append partition after config",
            InstallError::AfterData => "cannot append partition after data",
        }
    }
}

/// The disk of the boot, configuration and data partition of a
/// configuration, each where there is one, and the partition itself.
#[derive(Debug)]
pub struct ConfigLayout {
    pub boot: Option<String>,
    pub config: Option<String>,
    pub data: Option<String>,
    pub boot_partition: Option<DiskPartition>,
    pub config_partition: Option<DiskPartition>,
    pub data_partition: Option<DiskPartition>,
}

/// The first of a sequence of partitions, if there is one.
pub open spec fn first_part(s: Seq<PartitionView>) -> Option<PartitionView> {
    if s.len() == 0 {
        None
    } else {
        Some(s[0])
    }
}

pub open spec fn opt_part(p: Option<DiskPartition>) -> Option<PartitionView> {
    match p {
        Some(x) => Some(x@),
        None => None,
    }
}

/// The first of a sequence of disks, if there is one.
pub open spec fn first_dev(s: Seq<Seq<char>>) -> Option<Seq<char>> {
    if s.len() == 0 {
        None
    } else {
        Some(s[0])
    }
}

/// What `get_config_layout` gives for a configuration: the first check that
/// fails, or the disk of each kind of partition.
pub open spec fn layout_error(disks: Seq<InstallDisk>) -> Option<InstallError> {
    if kind_devs(disks, PartitionKind::Boot).len() > 1 {
        Some(InstallError::MultipleBoot)
    } else if kind_devs(disks, PartitionKind::Config).len() > 1 {
        Some(InstallError::MultipleConfig)
    } else if kind_devs(disks, PartitionKind::Data).len() > 1 {
        Some(InstallError::MultipleData)
    } else {
        None
    }
}

/// Whether `l` holds the disk of each kind of partition of `disks`.
pub open spec fn is_layout_of(l: ConfigLayout, disks: Seq<InstallDisk>) -> bool {
    &&& opt_text(l.boot) == first_dev(kind_devs(disks, PartitionKind::Boot))
    &&& opt_text(l.config) == first_dev(kind_devs(disks, PartitionKind::Config))
    &&& opt_text(l.data) == first_dev(kind_devs(disks, PartitionKind::Data))
    &&& opt_part(l.boot_partition) == first_part(kind_parts(disks, PartitionKind::Boot))
    &&& opt_part(l.config_partition) == first_part(kind_parts(disks, PartitionKind::Config))
    &&& opt_part(l.data_partition) == first_part(kind_parts(disks, PartitionKind::Data))
}

fn first_part_of(v: Vec<DiskPartition>) -> (r: Option<DiskPartition>)
    ensures
        opt_part(r) == first_part(v@.map_values(|p: DiskPartition| p@)),
{
    if v.len() == 0 {
        None
    } else {
        Some(v[0].copy())
    }
}

fn first_of(v: Vec<String>) -> (r: Option<String>)
    ensures
        opt_text(r) == first_dev(v@.map_values(|s: String| s@)),
{
    if v.len() == 0 {
        None
    } else {
        Some(v[0].clone())
    }
}

/// The disk of the boot, configuration and data partition of `config`, with
/// the partition itself; an error where there is more than one partition of
/// a kind.
pub fn get_config_layout(config: &InstallConfig) -> (r: Result<ConfigLayout, InstallError>)
    ensures
        r is Err <==> layout_error(config.disks@) is Some,
        r matches Err(e) ==> layout_error(config.disks@) == Some(e),
        r matches Ok(l) ==> is_layout_of(l, config.disks@),
{
    let boot = devs_of_kind(config, PartitionKind::Boot);
    let cfg = devs_of_kind(config, PartitionKind::Config);
    let data = devs_of_kind(config, PartitionKind::Data);
    if boot.len() > 1 {
        return Err(InstallError::MultipleBoot);
    }
    if cfg.len() > 1 {
        return Err(InstallError::MultipleConfig);
    }
    if data.len() > 1 {
        return Err(InstallError::MultipleData);
    }
    Ok(ConfigLayout {
        boot: first_of(boot),
        config: first_of(cfg),
        data: first_of(data),
        boot_partition: first_part_of(parts_of_kind(config, PartitionKind::Boot)),
        config_partition: first_part_of(parts_of_kind(config, PartitionKind::Config)),
        data_partition: first_part_of(parts_of_kind(config, PartitionKind::Data)),
    })
}

/// Whether two optional disks are the same (both absent, or the same name).
fn same_dev(a: &Option<String>, b: &Option<String>) -> (r: bool)
    ensures
        r == (opt_text(*a) == opt_text(*b)),
{
    match (a, b) {
        (Some(x), Some(y)) => str_eq(x.as_str(), y.as_str()),
        (None, None) => true,
        _ => false,
    }
}

/// What to do with the boot partition when the installed layout `old`
/// becomes `new`: the disk on which to create it, or nothing.
pub open spec fn boot_step_spec(old: ConfigLayout, new: ConfigLayout) -> Result<Option<Seq<char>>, InstallError> {
    match (opt_text(old.boot), opt_text(new.boot)) {
        (Some(o), Some(n)) => if o != n {
            Err(InstallError::Moved)
        } else {
            Ok(None)
        },
        (Some(_), None) => Err(InstallError::Removed),
        (None, Some(dev)) => if opt_text(old.config) == Some(dev) {
            Err(InstallError::AfterConfig)
        } else if opt_text(old.data) == Some(dev) {
            Err(InstallError::AfterData)
        } else {
            Ok(Some(dev))
        },
        (None, None) => Ok(None),
    }
}

/// Decides about the boot partition when the installed layout `old` becomes
/// `new`: an installed one stays where it is; a new one may not come after an
/// installed configuration or data partition on the same disk.
pub fn boot_step(old: &ConfigLayout, new: &ConfigLayout) -> (r: Result<Option<String>, InstallError>)
    ensures
        (match r {
            Ok(d) => boot_step_spec(*old, *new) == Ok::<Option<Seq<char>>, InstallError>(opt_text(d)),
            Err(e) => boot_step_spec(*old, *new) == Err::<Option<Seq<char>>, InstallError>(e),
        }),
{
    match (&old.boot, &new.boot) {
        (Some(o), Some(n)) => if !str_eq(o.as_str(), n.as_str()) {
            Err(InstallError::Moved)
        } else {
            Ok(None)
        },
        (Some(_), None) => Err(InstallError::Removed),
        (None, Some(dev)) => {
            let d = Some(dev.clone());
            if same_dev(&old.config, &d) {
                Err(InstallError::AfterConfig)
            } else if same_dev(&old.data, &d) {
                Err(InstallError::AfterData)
            } else {
                Ok(d)
            }
        },
        (None, None) => Ok(None),
    }
}

/// Whether the created partition `part`, if any, lies on the disk `dev`
/// (its name begins with the disk's).
pub open spec fn lies_on(part: Option<Seq<char>>, dev: Seq<char>) -> bool {
    match part {
        Some(p) => dev.is_prefix_of(p),
        None => false,
    }
}

fn part_lies_on(part: &Option<String>, dev: &str) -> (r: bool)
    ensures
        r == lies_on(opt_text(*part), dev@),
{
    match part {
        Some(p) => crate::text::starts_with(p.as_str(), dev),
        None => false,
    }
}

/// What to do with the configuration partition: the disk on which to create
/// it, and whether the created boot partition `boot_part` lies on it.
pub open spec fn config_step_spec(old: ConfigLayout, new: ConfigLayout, boot_part: Option<Seq<char>>) -> Result<
    Option<(Seq<char>, bool)>,
    InstallError,
> {
    match (opt_text(old.config), opt_text(new.config)) {
        (Some(o), Some(n)) => if o != n {
            Err(InstallError::Moved)
        } else {
            Ok(None)
        },
        (Some(_), None) => Err(InstallError::Removed),
        (None, Some(dev)) => if opt_text(old.data) == Some(dev) {
            Err(InstallError::AfterData)
        } else {
            Ok(Some((dev, lies_on(boot_part, dev))))
        },
        (None, None) => Ok(None),
    }
}

/// Decides about the configuration partition, once the boot partition
/// `boot_part` (if one was created) is known.
pub fn config_step(old: &ConfigLayout, new: &ConfigLayout, boot_part: &Option<String>) -> (r: Result<
    Option<(String, bool)>,
    InstallError,
>)
    ensures
        (match r {
            Ok(Some((d, b))) => config_step_spec(*old, *new, opt_text(*boot_part)) == Ok::<
                Option<(Seq<char>, bool)>,
                InstallError,
            >(Some((d@, b))),
            Ok(None) => config_step_spec(*old, *new, opt_text(*boot_part)) == Ok::<
                Option<(Seq<char>, bool)>,
                InstallError,
            >(None),
            Err(e) => config_step_spec(*old, *new, opt_text(*boot_part)) == Err::<
                Option<(Seq<char>, bool)>,
                InstallError,
            >(e),
        }),
{
    match (&old.config, &new.config) {
        (Some(o), Some(n)) => if !str_eq(o.as_str(), n.as_str()) {
            Err(InstallError::Moved)
        } else {
            Ok(None)
        },
        (Some(_), None) => Err(InstallError::Removed),
        (None, Some(dev)) => {
            let d = Some(dev.clone());
            if same_dev(&old.data, &d) {
                Err(InstallError::AfterData)
            } else {
                Ok(Some((dev.clone(), part_lies_on(boot_part, dev.as_str()))))
            }
        },
        (None, None) => Ok(None),
    }
}

/// What to do with the data partition: the disk on which to create it, and
/// whether the created boot and configuration partitions lie on it.
pub open spec fn data_step_spec(
    old: ConfigLayout,
    new: ConfigLayout,
    boot_part: Option<Seq<char>>,
    config_part: Option<Seq<char>>,
) -> Result<Option<(Seq<char>, bool, bool)>, InstallError> {
    match (opt_text(old.data), opt_text(new.data)) {
        (Some(o), Some(n)) => if o != n {
            Err(InstallError::Moved)
        } else {
            Ok(None)
        },
        (Some(_), None) => Err(InstallError::Removed),
        (None, Some(dev)) => Ok(Some((dev, lies_on(boot_part, dev), lies_on(config_part, dev)))),
        (None, None) => Ok(None),
    }
}

/// A partition is created only where none was installed, on the disk the
/// new layout names; an installed partition that stays on its disk is left
/// as it is; one that would move or disappear is refused. (For each of the
/// boot, configuration and data partitions.)
pub proof fn lemma_installed_partitions_stay(
    old: ConfigLayout,
    new: ConfigLayout,
    boot_part: Option<Seq<char>>,
    config_part: Option<Seq<char>>,
)
    ensures
        boot_step_spec(old, new) matches Ok(Some(d)) ==> opt_text(old.boot) is None && opt_text(new.boot)
            == Some(d),
        config_step_spec(old, new, boot_part) matches Ok(Some((d, _))) ==> opt_text(old.config) is None
            && opt_text(new.config) == Some(d),
        data_step_spec(old, new, boot_part, config_part) matches Ok(Some((d, _, _))) ==> opt_text(old.data)
            is None && opt_text(new.data) == Some(d),
        opt_text(old.boot) is Some && opt_text(old.boot) == opt_text(new.boot) ==> boot_step_spec(old, new)
            == Ok::<Option<Seq<char>>, InstallError>(None),
        opt_text(old.config) is Some && opt_text(old.config) == opt_text(new.config) ==> config_step_spec(
            old,
            new,
            boot_part,
        ) == Ok::<Option<(Seq<char>, bool)>, InstallError>(None),
        opt_text(old.data) is Some && opt_text(old.data) == opt_text(new.data) ==> data_step_spec(
            old,
            new,
            boot_part,
            config_part,
        ) == Ok::<Option<(Seq<char>, bool, bool)>, InstallError>(None),
        opt_text(old.boot) is Some && opt_text(old.boot) != opt_text(new.boot) ==> boot_step_spec(old, new)
            is Err,
        opt_text(old.config) is Some && opt_text(old.config) != opt_text(new.config) ==> config_step_spec(
            old,
            new,
            boot_part,
        ) is Err,
        opt_text(old.data) is Some && opt_text(old.data) != opt_text(new.data) ==> data_step_spec(
            old,
            new,
            boot_part,
            config_part,
        ) is Err,
{
}

/// Decides about the data partition, once the boot and configuration
/// partitions created (if any) are known.
pub fn data_step(
    old: &ConfigLayout,
    new: &ConfigLayout,
    boot_part: &Option<String>,
    config_part: &Option<String>,
) -> (r: Result<Option<(String, bool, bool)>, InstallError>)
    ensures
        (match r {
            Ok(Some((d, b, c))) => data_step_spec(*old, *new, opt_text(*boot_part), opt_text(*config_part))
                == Ok::<Option<(Seq<char>, bool, bool)>, InstallError>(Some((d@, b, c))),
            Ok(None) => data_step_spec(*old, *new, opt_text(*boot_part), opt_text(*config_part)) == Ok::<
                Option<(Seq<char>, bool, bool)>,
                InstallError,
            >(None),
            Err(e) => data_step_spec(*old, *new, opt_text(*boot_part), opt_text(*config_part)) == Err::<
                Option<(Seq<char>, bool, bool)>,
                InstallError,
            >(e),
        }),
{
    match (&old.data, &new.data) {
        (Some(o), Some(n)) => if !str_eq(o.as_str(), n.as_str()) {
            Err(InstallError::Moved)
        } else {
            Ok(None)
        },
        (Some(_), None) => Err(InstallError::Removed),
        (None, Some(dev)) => Ok(
            Some(
                (
                    dev.clone(),
                    part_lies_on(boot_part, dev.as_str()),
                    part_lies_on(config_part, dev.as_str()),
                ),
            ),
        ),
        (None, None) => Ok(None),
    }
}

/// The name of the boot partition created on `dev`: the second one.
pub fn boot_partition_name(dev: &str) -> (r: String)
    ensures
        r@ == dev@.push('2'),
{
    let mut s = String::new();
    push_str(&mut s, dev);
    push_char(&mut s, '2');
    assert(s@ =~= dev@.push('2'));
    s
}

/// The number of the configuration partition: the third after a boot one
/// on the same disk, else the first.
pub open spec fn config_partition_number(has_boot: bool) -> int {
    if has_boot {
        3
    } else {
        1
    }
}

/// The name of the configuration partition created on `dev`.
pub fn config_partition_name(dev: &str, has_boot: bool) -> (r: String)
    ensures
        r@ == dev@.push(
            if has_boot {
                '3'
            } else {
                '1'
            },
        ),
{
    let mut s = String::new();
    push_str(&mut s, dev);
    push_char(&mut s, if has_boot { '3' } else { '1' });
    assert(s@ =~= dev@.push(if has_boot { '3' } else { '1' }));
    s
}

/// The number of the data partition: after the boot partitions (two) and the
/// configuration one that lie on the same disk.
pub open spec fn data_partition_number(has_boot: bool, has_config: bool) -> int {
    config_partition_number(has_boot) + if has_config {
        1int
    } else {
        0int
    }
}

/// The digit of a partition number from one to four.
pub open spec fn digit_char(n: int) -> char {
    if n == 1 {
        '1'
    } else if n == 2 {
        '2'
    } else if n == 3 {
        '3'
    } else {
        '4'
    }
}

/// The name of the data partition created on `dev`.
pub fn data_partition_name(dev: &str, has_boot: bool, has_config: bool) -> (r: String)
    ensures
        r@ == dev@.push(digit_char(data_partition_number(has_boot, has_config))),
{
    let c = match (has_boot, has_config) {
        (true, true) => '4',
        (true, false) => '3',
        (false, true) => '2',
        (false, false) => '1',
    };
    let mut s = String::new();
    push_str(&mut s, dev);
    push_char(&mut s, c);
    assert(s@ =~= dev@.push(c));
    s
}

/// The kernel argument that names a partition, or nothing.
pub open spec fn disk_arg(label: Seq<char>, part: Option<Seq<char>>) -> Seq<char> {
    match part {
        Some(p) => label + p,
        None => Seq::empty(),
    }
}

/// The boot loader configuration for an installation with the given boot,
/// configuration and data partitions.
pub open spec fn limine_conf_spec(boot: Seq<char>, config: Option<Seq<char>>, data: Option<Seq<char>>) -> Seq<char> {
    "\ntimeout: 5\n\n/ContainerOs\n    protocol: linux\n    path: boot():/bzImage\n    cmdline: console=ttyS0,115200 init=/init "@
        + "cos.bootdisk="@ + boot + " "@ + disk_arg("cos.configdisk="@, config) + " "@ + disk_arg(
        "cos.datadisk="@,
        data,
    )
        + "\n    module_path: boot():/initrd\n\n/ContainerOs (maintenance)\n    protocol: linux\n    path: boot():/bzImage\n    cmdline: console=ttyS0,115200 init=/init cos.maintenance\n    module_path: boot():/initrd\n    "@
}

fn push_disk_arg(out: &mut String, label: &str, part: &Option<String>)
    ensures
        final(out)@ == old(out)@ + disk_arg(label@, opt_text(*part)),
{
    match part {
        Some(p) => {
            push_str(out, label);
            push_str(out, p.as_str());
        },
        None => {
            assert(old(out)@ + Seq::<char>::empty() =~= old(out)@);
        },
    }
}

/// Renders the boot loader configuration: a normal entry with the partitions
/// on the kernel command line, and a maintenance entry.
pub fn limine_conf(boot: &str, config: &Option<String>, data: &Option<String>) -> (r: String)
    ensures
        r@ == limine_conf_spec(boot@, opt_text(*config), opt_text(*data)),
{
    let mut s = String::new();
    push_str(
        &mut s,
        "\ntimeout: 5\n\n/ContainerOs\n    protocol: linux\n    path: boot():/bzImage\n    cmdline: console=ttyS0,115200 init=/init ",
    );
    push_str(&mut s, "cos.bootdisk=");
    push_str(&mut s, boot);
    push_str(&mut s, " ");
    push_disk_arg(&mut s, "cos.configdisk=", config);
    push_str(&mut s, " ");
    push_disk_arg(&mut s, "cos.datadisk=", data);
    push_str(
        &mut s,
        "\n    module_path: boot():/initrd\n\n/ContainerOs (maintenance)\n    protocol: linux\n    path: boot():/bzImage\n    cmdline: console=ttyS0,115200 init=/init cos.maintenance\n    module_path: boot():/initrd\n    ",
    );
    assert(s@ =~= limine_conf_spec(boot@, opt_text(*config), opt_text(*data)));
    s
}

} // verus!
