use mix::Action;

#[test]
fn install_subcommand_creates_install() {
    let action = Action::new("install", &Some(vec![]));
    assert!(matches!(action, Action::Install { .. }));
}

#[test]
fn remove_subcommand_creates_remove() {
    let action = Action::new("remove", &Some(vec![]));
    assert!(matches!(action, Action::Remove { .. }));
}

#[test]
fn synchronize_subcommand_creates_synchronize() {
    let action = Action::new("synchronize", &None);
    assert!(matches!(action, Action::Synchronize { .. }));
}

#[test]
fn update_subcommand_creates_synchronize_with_update() {
    let action = Action::new("update", &Some(vec![]));
    if let Action::Synchronize(next_action) = action {
        assert!(next_action.is_some());
        assert!(matches!(*next_action.unwrap(), Action::Update { .. }));
    }
    let action = Action::new("update", &None);
    if let Action::Synchronize(next_action) = action {
        assert!(next_action.is_some());
        assert!(matches!(*next_action.unwrap(), Action::Update { .. }));
    }
}

#[test]
fn fetch_subcommand_creates_fetch() {
    let action = Action::new("fetch", &Some(vec![]));
    assert!(matches!(action, Action::Fetch { .. }));
}

#[test]
fn list_subcommand_creates_list() {
    let action = Action::new("list", &None);
    assert!(matches!(action, Action::List { .. }));
}

#[test]
fn install_keeps_the_named_packages() {
    let action = Action::new("install", &Some(vec!["a".to_string(), "b".to_string()]));
    assert_eq!(action, Action::Install(vec!["a".to_string(), "b".to_string()]));
}

#[test]
fn update_with_names_nests_them_in_the_follow_up() {
    let action = Action::new("update", &Some(vec!["a".to_string()]));
    assert_eq!(
        action,
        Action::Synchronize(Some(Box::new(Action::Update(Some(vec!["a".to_string()])))))
    );
}

/// Records which method an action dispatched to.
struct Recorder {
    log: Vec<String>,
}

impl mix::Actionable for Recorder {
    fn install(&mut self, packages: &Vec<String>) -> Result<(), mix::MixError> {
        self.log.push(format!("install {}", packages.join(" ")));
        Ok(())
    }
    fn remove(&mut self, packages: &Vec<String>) -> Result<(), mix::MixError> {
        self.log.push(format!("remove {}", packages.join(" ")));
        Ok(())
    }
    fn synchronize(&mut self, next_action: &Option<Box<Action>>) -> Result<(), mix::MixError> {
        self.log.push(format!("synchronize (follow-up: {})", next_action.is_some()));
        Ok(())
    }
    fn update(&mut self, packages: &Option<Vec<String>>) -> Result<(), mix::MixError> {
        self.log.push(format!("update (named: {})", packages.is_some()));
        Ok(())
    }
    fn fetch(&self, _packages: &Vec<String>) -> Result<(), mix::MixError> {
        Ok(())
    }
    fn list(&self) -> Result<(), mix::MixError> {
        Err(mix::MixError::Aborted)
    }
}

#[test]
fn execute_dispatches_to_the_matching_method() {
    let mut recorder = Recorder { log: vec![] };
    let action = Action::new("install", &Some(vec!["foo".to_string()]));
    assert!(action.execute(&mut recorder).is_ok());
    let action = Action::new("update", &None);
    assert!(action.execute(&mut recorder).is_ok());
    assert_eq!(recorder.log, vec![
        "install foo".to_string(),
        "synchronize (follow-up: true)".to_string(),
    ]);
    // The executor's own answer comes back unchanged.
    let action = Action::new("list", &None);
    assert_eq!(action.execute(&mut recorder), Err(mix::MixError::Aborted));
}
