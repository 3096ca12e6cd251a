use orynth::sidecar::{
    next_recovery, plan_install, InstallStep, RecoveryAction, RecoveryStage, Sighting, Source,
};

/// A directory whose files hold a generation each; an even one is valid.
#[derive(Clone, Debug, Default, PartialEq)]
struct Directory {
    primary: Option<u32>,
    backup: Option<u32>,
    temporaries: Vec<u32>,
    legacy: Option<u32>,
}

fn valid(generation: u32) -> bool {
    generation % 2 == 0
}

fn recover(directory: &mut Directory) -> Result<Option<u32>, Source> {
    let mut stage = RecoveryStage::Start;
    let mut readable = false;
    loop {
        let seen = Sighting {
            primary: directory.primary.is_some(),
            backup: directory.backup.is_some(),
            legacy: directory.legacy.is_some(),
            temporaries: directory.temporaries.len(),
            readable,
        };
        let (next, action) = next_recovery(stage, seen);
        stage = next;
        match action {
            RecoveryAction::RestoreBackup | RecoveryAction::ReplacePrimary => {
                directory.primary = directory.backup.take();
            }
            RecoveryAction::ReadTemporary(index) => readable = valid(directory.temporaries[index]),
            RecoveryAction::AdoptTemporary(index) => {
                directory.primary = Some(directory.temporaries.remove(index));
            }
            RecoveryAction::ReadPrimary => readable = valid(directory.primary.unwrap()),
            RecoveryAction::ReadBackup => readable = valid(directory.backup.unwrap()),
            RecoveryAction::ReadLegacy => readable = valid(directory.legacy.unwrap()),
            RecoveryAction::RemoveBackup => directory.backup = None,
            RecoveryAction::RemoveTemporaries => directory.temporaries.clear(),
            RecoveryAction::InstallLegacy => directory.primary = directory.legacy,
            RecoveryAction::Finish(Source::Nothing) => return Ok(None),
            RecoveryAction::Finish(Source::Legacy) => return Ok(directory.legacy),
            RecoveryAction::Finish(_) => return Ok(directory.primary),
            RecoveryAction::Fail(source) => return Err(source),
        }
    }
}

fn take_step(directory: &mut Directory, step: InstallStep, generation: u32) {
    match step {
        InstallStep::WriteTemporary => directory.temporaries.push(generation),
        InstallStep::RemoveBackup => directory.backup = None,
        InstallStep::SetAside => directory.backup = directory.primary.take(),
        InstallStep::PutInPlace => directory.primary = directory.temporaries.pop(),
    }
}

#[test]
fn interrupted_installations_keep_a_generation() {
    for backup in [None, Some(2), Some(3)] {
        let start = Directory { primary: Some(4), backup, temporaries: vec![7], legacy: None };
        let steps = plan_install(true, backup.is_some());
        for count in 0..=steps.len() {
            let mut directory = start.clone();
            for step in &steps[..count] {
                take_step(&mut directory, *step, 6);
            }
            let installed = count + 1 >= steps.len();
            let expected = if installed { 6 } else { 4 };
            assert_eq!(recover(&mut directory), Ok(Some(expected)));
            assert_eq!(directory.primary, Some(expected));
            assert_eq!(directory.backup, None);
            assert_eq!(recover(&mut directory), Ok(Some(expected)));
        }
    }
    let mut fresh = Directory::default();
    assert_eq!(
        plan_install(false, false),
        vec![InstallStep::WriteTemporary, InstallStep::PutInPlace]
    );
    for step in plan_install(false, false) {
        take_step(&mut fresh, step, 8);
    }
    assert_eq!(recover(&mut fresh), Ok(Some(8)));
}

#[test]
fn recoveries_choose_among_the_files() {
    assert_eq!(recover(&mut Directory::default()), Ok(None));
    let mut temporaries = Directory { temporaries: vec![1, 3, 4, 6], ..Directory::default() };
    assert_eq!(recover(&mut temporaries), Ok(Some(4)));
    assert!(temporaries.temporaries.is_empty());
    let mut broken = Directory { primary: Some(1), backup: Some(2), ..Directory::default() };
    assert_eq!(recover(&mut broken), Ok(Some(2)));
    assert_eq!(broken.primary, Some(2));
    let mut lost = Directory { primary: Some(1), backup: Some(3), ..Directory::default() };
    assert_eq!(recover(&mut lost), Err(Source::Primary));
    let mut alone = Directory { primary: Some(1), temporaries: vec![2], ..Directory::default() };
    assert_eq!(recover(&mut alone), Err(Source::Primary));
    let mut legacy = Directory { legacy: Some(2), temporaries: vec![1], ..Directory::default() };
    assert_eq!(recover(&mut legacy), Ok(Some(2)));
    assert_eq!(legacy.primary, Some(2));
    let mut unread = Directory { legacy: Some(5), ..Directory::default() };
    assert_eq!(recover(&mut unread), Err(Source::Legacy));
    let mut covered = Directory { primary: Some(8), legacy: Some(2), ..Directory::default() };
    assert_eq!(recover(&mut covered), Ok(Some(8)));
}
